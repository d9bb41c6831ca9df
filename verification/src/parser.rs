//! Structural parser: walks the block-structured document model and emits
//! one section per top-level heading, rendering each block into escaped,
//! emit-ready lines.

use vstd::prelude::*;

use crate::escape::escape_chars;
use crate::escape::escape_spec;
use crate::escape::url_escape_chars;
use crate::escape::url_escape_spec;
use crate::text::chars_to_string;
use crate::text::contains_sub;
use crate::text::last_match;
use crate::text::push_all;
use crate::text::push_str_chars;
use crate::text::replace_all;
use crate::text::replace_spec;
use crate::text::rfind_sub;
use crate::text::seq_contains_sub;
use crate::text::spaces;
use crate::text::str_chars;
use crate::text::subvec;
use crate::text::trim_chars;
use crate::text::trim_end_chars;
use crate::text::trim_end_spec;
use crate::text::trim_spec;
use crate::validator::is_alnum;
use crate::events::MdEvent;
use crate::events::MdEv;
use crate::text::trim_start_chars;
use crate::text::starts_with_chars;

verus! {

/// One titled group of rendered content lines, derived from a top-level
/// heading and its body.
pub struct Section {
    /// The heading text, empty for content before the first heading.
    pub title: String,
    /// The rendered, emit-ready lines, in source order.
    pub lines: Vec<String>,
}

/// Specification-level image of a section.
#[verifier::ext_equal]
pub struct SectionV {
    pub title: Seq<char>,
    pub lines: Seq<Seq<char>>,
}

impl View for Section {
    type V = SectionV;

    open spec fn view(&self) -> SectionV {
        SectionV { title: self.title@, lines: self.lines.deep_view() }
    }
}

impl DeepView for Section {
    type V = SectionV;

    open spec fn deep_view(&self) -> SectionV {
        self.view()
    }
}

// ---------------------------------------------------------------------------
// Bare links
// ---------------------------------------------------------------------------

/// Rightmost start of a bare URL in parentheses: an `(https://` opener,
/// or failing that an `(http://` opener.
pub open spec fn bare_url_start(t: Seq<char>) -> Option<int> {
    match last_match(t, "(https://"@) {
        Option::Some(i) => Option::Some(i),
        Option::None => last_match(t, "(http://"@),
    }
}

/// A line that ends in a bare `(url)` and carries no link markup is
/// rewritten into a `[text](url)` link; other lines pass unchanged.
pub open spec fn fix_bare_link_spec(line: Seq<char>) -> Seq<char> {
    if seq_contains_sub(line, "]("@) {
        line
    } else {
        let plain = replace_spec(line, seq!['\\'], Seq::empty());
        let t = trim_end_spec(plain);
        if t.len() > 0 && t.last() == ')' && bare_url_start(t) is Some {
            let start = bare_url_start(t)->Some_0;
            let url = t.subrange(start + 1, t.len() - 1);
            let text = trim_end_spec(t.take(start));
            "["@ + escape_spec(text) + "]("@ + url_escape_spec(url) + ")"@
        } else {
            line
        }
    }
}

/// Rewrites a trailing bare `(url)` with no existing link markup into a
/// proper link.
pub fn fix_bare_link(line: &Vec<char>) -> (r: Vec<char>)
    ensures
        r@ == fix_bare_link_spec(line@),
{
    let bra = str_chars("](");
    if contains_sub(line, &bra) {
        return subvec_all(line);
    }
    let marker: Vec<char> = vec!['\\'];
    let empty: Vec<char> = Vec::new();
    proof {
        assert(marker@ =~= seq!['\\']);
        assert(empty@ =~= Seq::<char>::empty());
    }
    let plain = replace_all(line, &marker, &empty);
    let t = trim_end_chars(&plain);
    if t.len() > 0 && t[t.len() - 1] == ')' {
        let https = str_chars("(https://");
        let http = str_chars("(http://");
        let start_opt = match rfind_sub(&t, &https) {
            Option::Some(i) => Option::Some(i),
            Option::None => rfind_sub(&t, &http),
        };
        if let Option::Some(start) = start_opt {
            proof {
                reveal_strlit("(https://");
                reveal_strlit("(http://");
                assert(bare_url_start(t@) == Option::Some(start as int));
                assert(start + 1 <= t@.len() - 1);
            }
            let url = subvec(&t, start + 1, t.len() - 1);
            let text_part = subvec(&t, 0, start);
            let text = trim_end_chars(&text_part);
            let mut out = str_chars("[");
            let et = escape_chars(&text);
            push_all(&mut out, &et);
            push_str_chars(&mut out, "](");
            let eu = url_escape_chars(&url);
            push_all(&mut out, &eu);
            push_str_chars(&mut out, ")");
            proof {
                assert(t@.take(start as int) =~= t@.subrange(0, start as int));
            }
            return out;
        }
        return subvec_all(line);
    }
    subvec_all(line)
}

/// A fresh copy of the whole vector.
fn subvec_all(v: &Vec<char>) -> (r: Vec<char>)
    ensures
        r@ == v@,
{
    let r = subvec(v, 0, v.len());
    proof {
        assert(v@.subrange(0, v@.len() as int) =~= v@);
    }
    r
}

// ---------------------------------------------------------------------------
// Profile mentions
// ---------------------------------------------------------------------------

/// End of a mention name: the first position at or after `j` that is
/// neither alphanumeric nor a hyphen.
pub open spec fn mention_end(s: Seq<char>, j: int) -> int
    decreases s.len() - j when 0 <= j <= s.len()
{
    if j == s.len() || !(is_alnum(s[j]) || s[j] == '-') {
        j
    } else {
        mention_end(s, j + 1)
    }
}

pub proof fn lemma_mention_end_bounds(s: Seq<char>, j: int)
    requires
        0 <= j <= s.len(),
    ensures
        j <= mention_end(s, j) <= s.len(),
    decreases s.len() - j,
{
    if j == s.len() || !(is_alnum(s[j]) || s[j] == '-') {
    } else {
        lemma_mention_end_bounds(s, j + 1);
    }
}

/// The scan that turns a bare `@name` outside link markup into a link to
/// the conventional profile page, leaving names adjacent to word
/// characters alone.
pub open spec fn mentions_spec(s: Seq<char>, i: int, depth: nat) -> Seq<char>
    decreases s.len() - i,
    when 0 <= i <= s.len()
    via mentions_spec_dec
{
    if i >= s.len() {
        Seq::empty()
    } else {
        let c = s[i];
        if c == '[' {
            seq![c] + mentions_spec(s, i + 1, depth + 1)
        } else if c == ']' {
            seq![c] + mentions_spec(s, i + 1, if depth > 0 { (depth - 1) as nat } else { 0 })
        } else if c == '@' && depth == 0 {
            if i + 1 < s.len() && is_alnum(s[i + 1]) {
                let j = mention_end(s, i + 1);
                let prev_block = i > 0 && (is_alnum(s[i - 1]) || s[i - 1] == '/');
                let next_block = j < s.len() && (is_alnum(s[j]) || s[j] == '-');
                if !prev_block && !next_block {
                    let user = s.subrange(i + 1, j);
                    seq!['['] + user + "](https://github.com/"@ + user + seq![')']
                        + mentions_spec(s, j, depth)
                } else {
                    seq![c] + mentions_spec(s, i + 1, depth)
                }
            } else {
                seq![c] + mentions_spec(s, i + 1, depth)
            }
        } else {
            seq![c] + mentions_spec(s, i + 1, depth)
        }
    }
}

#[via_fn]
proof fn mentions_spec_dec(s: Seq<char>, i: int, depth: nat) {
    if 0 <= i < s.len() && i + 1 < s.len() {
        lemma_mention_end_bounds(s, i + 1);
    }
}

/// Rewrites bare `@name` mentions outside link markup into profile links.
pub fn replace_github_mentions(v: &Vec<char>) -> (r: Vec<char>)
    ensures
        r@ == mentions_spec(v@, 0, 0),
{
    let n = v.len();
    let mut out: Vec<char> = Vec::new();
    let mut i: usize = 0;
    let mut depth: usize = 0;
    proof {
        assert(out@ + mentions_spec(v@, 0, 0) =~= mentions_spec(v@, 0, 0));
    }
    while i < n
        invariant
            i <= n,
            depth <= i,
            n == v@.len(),
            mentions_spec(v@, 0, 0) == out@ + mentions_spec(v@, i as int, depth as nat),
        decreases n - i,
    {
        let ghost pre = out@;
        let ghost gi = i as int;
        let ghost gd = depth as nat;
        let c = v[i];
        if c == '[' {
            out.push(c);
            depth += 1;
            proof {
                assert(pre + (seq![c] + mentions_spec(v@, gi + 1, gd + 1)) =~= out@
                    + mentions_spec(v@, gi + 1, gd + 1));
            }
            i += 1;
        } else if c == ']' {
            out.push(c);
            if depth > 0 {
                depth -= 1;
            }
            proof {
                let nd: nat = if gd > 0 {
                    (gd - 1) as nat
                } else {
                    0
                };
                assert(pre + (seq![c] + mentions_spec(v@, gi + 1, nd)) =~= out@
                    + mentions_spec(v@, gi + 1, nd));
            }
            i += 1;
        } else if c == '@' && depth == 0 && i + 1 < n && alnum_exec(v[i + 1]) {
            let mut j: usize = i + 1;
            while j < n && (alnum_exec(v[j]) || v[j] == '-')
                invariant
                    i + 1 <= j <= n,
                    n == v@.len(),
                    mention_end(v@, i + 1) == mention_end(v@, j as int),
                decreases n - j,
            {
                j += 1;
            }
            proof {
                assert(mention_end(v@, j as int) == j);
            }
            let prev_block = i > 0 && {
                let p = v[i - 1];
                alnum_exec(p) || p == '/'
            };
            let next_block = j < n && {
                let q = v[j];
                alnum_exec(q) || q == '-'
            };
            if !prev_block && !next_block {
                let user = subvec(v, i + 1, j);
                out.push('[');
                push_all(&mut out, &user);
                push_str_chars(&mut out, "](https://github.com/");
                push_all(&mut out, &user);
                out.push(')');
                proof {
                    assert(out@ =~= pre + (seq!['['] + user@ + "](https://github.com/"@
                        + user@ + seq![')']));
                    assert(pre + (seq!['['] + user@ + "](https://github.com/"@ + user@
                        + seq![')'] + mentions_spec(v@, j as int, gd)) =~= out@
                        + mentions_spec(v@, j as int, gd));
                }
                i = j;
            } else {
                out.push(c);
                proof {
                    assert(pre + (seq![c] + mentions_spec(v@, gi + 1, gd)) =~= out@
                        + mentions_spec(v@, gi + 1, gd));
                }
                i += 1;
            }
        } else {
            out.push(c);
            proof {
                assert(pre + (seq![c] + mentions_spec(v@, gi + 1, gd)) =~= out@
                    + mentions_spec(v@, gi + 1, gd));
            }
            i += 1;
        }
    }
    proof {
        assert(mentions_spec(v@, n as int, depth as nat) == Seq::<char>::empty());
        assert(out@ + Seq::<char>::empty() =~= out@);
    }
    out
}

fn alnum_exec(c: char) -> (r: bool)
    ensures
        r == is_alnum(c),
{
    ('0' <= c && c <= '9') || ('a' <= c && c <= 'z') || ('A' <= c && c <= 'Z')
}

// ---------------------------------------------------------------------------
// Table text normalization
// ---------------------------------------------------------------------------

/// Known long domain terms shortened so that table content fits.
pub open spec fn normalize_table_spec(s: Seq<char>) -> Seq<char> {
    let s1 = replace_spec(s, "Regressions"@, "Reg"@);
    let s2 = replace_spec(s1, "Improvements"@, "Imp"@);
    let s3 = replace_spec(s2, "❌"@, "x"@);
    let s4 = replace_spec(s3, "✅"@, "v"@);
    let s5 = replace_spec(s4, "(primary)"@, "prim"@);
    let s6 = replace_spec(s5, "(secondary)"@, "sec"@);
    let s7 = replace_spec(s6, "primary"@, "prim"@);
    replace_spec(s7, "secondary"@, "sec"@)
}

/// Shortens known long domain terms in table text.
pub fn normalize_table_text(v: &Vec<char>) -> (r: Vec<char>)
    ensures
        r@ == normalize_table_spec(v@),
{
    let mut out = replace_lit(v, "Regressions", "Reg");
    out = replace_lit(&out, "Improvements", "Imp");
    out = replace_lit(&out, "❌", "x");
    out = replace_lit(&out, "✅", "v");
    out = replace_lit(&out, "(primary)", "prim");
    out = replace_lit(&out, "(secondary)", "sec");
    out = replace_lit(&out, "primary", "prim");
    out = replace_lit(&out, "secondary", "sec");
    out
}

fn replace_lit(v: &Vec<char>, pat: &str, rep: &str) -> (r: Vec<char>)
    ensures
        r@ == replace_spec(v@, pat@, rep@),
{
    let pv = str_chars(pat);
    let rv = str_chars(rep);
    replace_all(v, &pv, &rv)
}


// ---------------------------------------------------------------------------
// Table rendering
// ---------------------------------------------------------------------------

/// Display width of one character: a small heuristic that counts wide
/// glyphs (CJK and emoji blocks) as two columns and joining marks as none.
pub open spec fn char_disp_width(c: char) -> nat {
    if c == '\u{FE0F}' || c == '\u{200D}' {
        0
    } else if ('\u{1100}' <= c && c <= '\u{115F}') || ('\u{2E80}' <= c && c <= '\u{A4CF}') || (
    '\u{AC00}' <= c && c <= '\u{D7A3}') || ('\u{F900}' <= c && c <= '\u{FAFF}') || ('\u{FE30}'
        <= c && c <= '\u{FE4F}') || ('\u{FF00}' <= c && c <= '\u{FF60}') || ('\u{FFE0}' <= c
        && c <= '\u{FFE6}') || ('\u{1F300}' <= c && c <= '\u{1FAFF}') || ('\u{20000}' <= c && c
        <= '\u{3FFFD}') {
        2
    } else {
        1
    }
}

/// Display width of a cell.
pub open spec fn disp_width(s: Seq<char>) -> nat
    decreases s.len()
{
    if s.len() == 0 {
        0
    } else {
        char_disp_width(s[0]) + disp_width(s.skip(1))
    }
}

pub proof fn lemma_disp_width_push(s: Seq<char>, c: char)
    ensures
        disp_width(s.push(c)) == disp_width(s) + char_disp_width(c),
    decreases s.len(),
{
    if s.len() == 0 {
        assert(s.push(c)[0] == c);
        assert(s.push(c).skip(1) =~= Seq::<char>::empty());
        assert(disp_width(Seq::<char>::empty()) == 0);
    } else {
        assert(s.push(c)[0] == s[0]);
        assert(s.push(c).skip(1) =~= s.skip(1).push(c));
        lemma_disp_width_push(s.skip(1), c);
    }
}

/// Display width of a cell, executable form.  The wide total lives in a
/// `u128` so that no sum can overflow.
pub fn disp_width_exec(v: &Vec<char>) -> (r: u128)
    ensures
        r == disp_width(v@),
{
    let mut total: u128 = 0;
    let mut i: usize = 0;
    while i < v.len()
        invariant
            i <= v@.len(),
            total == disp_width(v@.take(i as int)),
            total <= 2 * i,
        decreases v@.len() - i,
    {
        let c = v[i];
        let w: u128 = if c == '\u{FE0F}' || c == '\u{200D}' {
            0
        } else if ('\u{1100}' <= c && c <= '\u{115F}') || ('\u{2E80}' <= c && c <= '\u{A4CF}')
            || ('\u{AC00}' <= c && c <= '\u{D7A3}') || ('\u{F900}' <= c && c <= '\u{FAFF}') || (
        '\u{FE30}' <= c && c <= '\u{FE4F}') || ('\u{FF00}' <= c && c <= '\u{FF60}') || (
        '\u{FFE0}' <= c && c <= '\u{FFE6}') || ('\u{1F300}' <= c && c <= '\u{1FAFF}') || (
        '\u{20000}' <= c && c <= '\u{3FFFD}') {
            2
        } else {
            1
        };
        proof {
            assert(w == char_disp_width(v@[i as int]));
            lemma_disp_width_push(v@.take(i as int), v@[i as int]);
            assert(v@.take(i as int).push(v@[i as int]) =~= v@.take(i + 1));
        }
        total += w;
        i += 1;
    }
    proof {
        assert(v@.take(v@.len() as int) =~= v@);
    }
    total
}

/// The width of one column: the greatest display width of any cell in
/// that column, over all rows.
pub open spec fn col_width(table: Seq<Seq<Seq<char>>>, col: int) -> nat
    decreases table.len()
{
    if table.len() == 0 {
        0
    } else {
        let rest = col_width(table.drop_first(), col);
        let mine: nat = if 0 <= col < table[0].len() {
            disp_width(table[0][col])
        } else {
            0
        };
        if mine > rest {
            mine
        } else {
            rest
        }
    }
}

/// One row's cells rendered from `i` on, each padded to its column width.
pub open spec fn render_cells(row: Seq<Seq<char>>, table: Seq<Seq<Seq<char>>>, i: int) -> Seq<
    char,
>
    decreases row.len() - i when 0 <= i
{
    if i >= row.len() {
        Seq::empty()
    } else {
        seq![' '] + row[i] + spaces(col_width(table, i) - disp_width(row[i])) + " |"@
            + render_cells(row, table, i + 1)
    }
}

pub open spec fn render_row(row: Seq<Seq<char>>, table: Seq<Seq<Seq<char>>>) -> Seq<char> {
    seq!['|'] + render_cells(row, table, 0)
}

/// All rows rendered from `i` on, joined with line breaks.
pub open spec fn render_rows(table: Seq<Seq<Seq<char>>>, i: int) -> Seq<char>
    decreases table.len() - i when 0 <= i
{
    if i >= table.len() {
        Seq::empty()
    } else if i == table.len() - 1 {
        render_row(table[i], table)
    } else {
        render_row(table[i], table) + seq!['\n'] + render_rows(table, i + 1)
    }
}

/// A whole table rendered as column-aligned text inside one code fence.
pub open spec fn render_table_spec(table: Seq<Seq<Seq<char>>>) -> Seq<char> {
    "```\n"@ + render_rows(table, 0) + "\n```"@
}

/// Renders the rows of a table as column-aligned monospace text inside a
/// single code fence.
pub fn render_table(table: &Vec<Vec<Vec<char>>>) -> (r: Vec<char>)
    ensures
        r.deep_view() == render_table_spec(table.deep_view()),
        r@ == render_table_spec(table.deep_view()),
{
    let ghost tv = table.deep_view();
    let mut out = str_chars("```\n");
    let n = table.len();
    let mut i: usize = 0;
    proof {
        assert(out@ =~= "```\n"@ + render_rows(tv, 0).take(0));
    }
    let mut done: bool = false;
    while i < n
        invariant
            i <= n,
            n == table@.len(),
            tv == table.deep_view(),
            tv.len() == n,
            out@ == "```\n"@ + ghost_rendered(tv, i as int),
        decreases n - i,
    {
        let row = &table[i];
        proof {
            assert(row.deep_view() == tv[i as int]);
        }
        if i > 0 {
            out.push('\n');
        }
        render_row_into(&mut out, row, table);
        proof {
            lemma_rendered_step(tv, i as int);
        }
        i += 1;
    }
    proof {
        lemma_rendered_full(tv);
    }
    push_str_chars(&mut out, "\n```");
    out
}

/// The first `i` rows rendered and joined: the prefix of `render_rows`.
pub open spec fn ghost_rendered(table: Seq<Seq<Seq<char>>>, i: int) -> Seq<char>
    decreases i when 0 <= i
{
    if i <= 0 {
        Seq::empty()
    } else if i == 1 {
        render_row(table[0], table)
    } else {
        ghost_rendered(table, i - 1) + seq!['\n'] + render_row(table[i - 1], table)
    }
}

proof fn lemma_rendered_step(table: Seq<Seq<Seq<char>>>, i: int)
    requires
        0 <= i < table.len(),
    ensures
        ghost_rendered(table, i + 1) == if i == 0 {
            render_row(table[0], table)
        } else {
            ghost_rendered(table, i) + seq!['\n'] + render_row(table[i], table)
        },
{
}

proof fn lemma_rendered_full(table: Seq<Seq<Seq<char>>>)
    ensures
        ghost_rendered(table, table.len() as int) == render_rows(table, 0),
{
    if table.len() == 0 {
    } else {
        lemma_rendered_full_aux(table, 1);
        if table.len() == 1 {
            assert(ghost_rendered(table, 1) + Seq::<char>::empty() =~= ghost_rendered(
                table,
                1,
            ));
        }
    }
}

proof fn lemma_rendered_full_aux(table: Seq<Seq<Seq<char>>>, i: int)
    requires
        1 <= i <= table.len(),
    ensures
        ghost_rendered(table, table.len() as int) == ghost_rendered(table, i) + (if i
            == table.len() {
            Seq::<char>::empty()
        } else {
            seq!['\n'] + render_rows(table, i)
        }),
    decreases table.len() - i,
{
    if i == table.len() {
        assert(ghost_rendered(table, i) + Seq::<char>::empty() =~= ghost_rendered(table, i));
    } else {
        lemma_rendered_full_aux(table, i + 1);
        if i == table.len() - 1 {
            assert(ghost_rendered(table, i + 1) =~= ghost_rendered(table, i) + (seq!['\n']
                + render_rows(table, i)));
        } else {
            assert(ghost_rendered(table, i + 1) + (seq!['\n'] + render_rows(table, i + 1))
                =~= ghost_rendered(table, i) + (seq!['\n'] + (render_row(table[i], table)
                + seq!['\n'] + render_rows(table, i + 1))));
        }
    }
}

/// Appends one rendered row to `out`.
fn render_row_into(out: &mut Vec<char>, row: &Vec<Vec<char>>, table: &Vec<Vec<Vec<char>>>)
    ensures
        final(out)@ == old(out)@ + render_row(row.deep_view(), table.deep_view()),
{
    let ghost rv = row.deep_view();
    let ghost tv = table.deep_view();
    out.push('|');
    let n = row.len();
    let mut i: usize = 0;
    proof {
        assert(out@ =~= old(out)@ + seq!['|'] + Seq::<char>::empty());
    }
    while i < n
        invariant
            i <= n,
            n == row@.len(),
            rv == row.deep_view(),
            tv == table.deep_view(),
            rv.len() == n,
            out@ == old(out)@ + seq!['|'] + cells_prefix(rv, tv, i as int),
        decreases n - i,
    {
        let cell = &row[i];
        proof {
            assert(cell.deep_view() == rv[i as int]);
            assert(cell@ =~= rv[i as int]);
        }
        out.push(' ');
        crate::text::push_all(out, cell);
        let dw = disp_width_exec(cell);
        let cw = col_width_exec(table, i);
        let mut k: u128 = dw;
        while k < cw
            invariant
                dw <= k,
                k <= cw || k == dw,
                out@ == old(out)@ + seq!['|'] + cells_prefix(rv, tv, i as int) + seq![' ']
                    + rv[i as int] + spaces(k - dw),
            decreases cw - k,
        {
            out.push(' ');
            proof {
                assert(spaces(k - dw).push(' ') =~= spaces(k + 1 - dw));
                assert((old(out)@ + seq!['|'] + cells_prefix(rv, tv, i as int) + seq![' ']
                    + rv[i as int] + spaces(k - dw)).push(' ') =~= old(out)@ + seq!['|']
                    + cells_prefix(rv, tv, i as int) + seq![' '] + rv[i as int] + spaces(
                    k + 1 - dw,
                ));
            }
            k += 1;
        }
        push_str_chars(out, " |");
        proof {
            assert(k - dw == col_width(tv, i as int) - disp_width(rv[i as int]) || (
            col_width(tv, i as int) <= disp_width(rv[i as int]) && k == dw));
            if col_width(tv, i as int) <= disp_width(rv[i as int]) {
                assert(spaces(k - dw) =~= spaces(
                    col_width(tv, i as int) - disp_width(rv[i as int]),
                ));
            }
            assert(cells_prefix(rv, tv, i + 1) =~= cells_prefix(rv, tv, i as int) + (seq![' ']
                + rv[i as int] + spaces(col_width(tv, i as int) - disp_width(rv[i as int]))
                + " |"@));
            assert(out@ =~= old(out)@ + seq!['|'] + cells_prefix(rv, tv, i + 1));
        }
        i += 1;
    }
    proof {
        lemma_cells_prefix_full(rv, tv);
        assert(old(out)@ + seq!['|'] + cells_prefix(rv, tv, rv.len() as int) =~= old(out)@
            + render_row(rv, tv));
    }
}

/// The first `i` cells of a row, rendered.
pub open spec fn cells_prefix(row: Seq<Seq<char>>, table: Seq<Seq<Seq<char>>>, i: int) -> Seq<
    char,
>
    decreases i when 0 <= i
{
    if i <= 0 {
        Seq::empty()
    } else {
        cells_prefix(row, table, i - 1) + (seq![' '] + row[i - 1] + spaces(
            col_width(table, i - 1) - disp_width(row[i - 1]),
        ) + " |"@)
    }
}

proof fn lemma_cells_prefix_full(row: Seq<Seq<char>>, table: Seq<Seq<Seq<char>>>)
    ensures
        cells_prefix(row, table, row.len() as int) == render_cells(row, table, 0),
{
    lemma_cells_prefix_aux(row, table, 0);
    assert(cells_prefix(row, table, 0) + render_cells(row, table, 0) =~= render_cells(
        row,
        table,
        0,
    ));
}

proof fn lemma_cells_prefix_aux(row: Seq<Seq<char>>, table: Seq<Seq<Seq<char>>>, i: int)
    requires
        0 <= i <= row.len(),
    ensures
        cells_prefix(row, table, row.len() as int) == cells_prefix(row, table, i)
            + render_cells(row, table, i),
    decreases row.len() - i,
{
    if i == row.len() {
        assert(cells_prefix(row, table, i) + render_cells(row, table, i) =~= cells_prefix(
            row,
            table,
            i,
        ));
    } else {
        lemma_cells_prefix_aux(row, table, i + 1);
        assert(cells_prefix(row, table, i + 1) =~= cells_prefix(row, table, i) + (seq![' ']
            + row[i] + spaces(col_width(table, i) - disp_width(row[i])) + " |"@));
        assert(cells_prefix(row, table, i) + render_cells(row, table, i) =~= cells_prefix(
            row,
            table,
            i + 1,
        ) + render_cells(row, table, i + 1));
    }
}

/// The width of column `col`, executable form.
fn col_width_exec(table: &Vec<Vec<Vec<char>>>, col: usize) -> (r: u128)
    ensures
        r == col_width(table.deep_view(), col as int),
{
    let ghost tv = table.deep_view();
    let mut best: u128 = 0;
    let mut k: usize = table.len();
    while k > 0
        invariant
            k <= table@.len(),
            tv == table.deep_view(),
            tv.len() == table@.len(),
            best == col_width(tv.skip(k as int), col as int),
        decreases k,
    {
        k -= 1;
        let row = &table[k];
        proof {
            assert(row.deep_view() == tv[k as int]);
        }
        let mine: u128 = if col < row.len() {
            let cell = &row[col];
            proof {
                assert(cell.deep_view() == tv[k as int][col as int]);
                assert(cell@ =~= tv[k as int][col as int]);
            }
            disp_width_exec(cell)
        } else {
            0
        };
        if mine > best {
            best = mine;
        }
        proof {
            assert(tv.skip(k as int).drop_first() =~~= tv.skip(k + 1));
            assert(tv.skip(k as int)[0] == tv[k as int]);
        }
    }
    proof {
        assert(tv.skip(0) =~~= tv);
    }
    best
}


// ---------------------------------------------------------------------------
// The parse state machine
// ---------------------------------------------------------------------------

/// The running state of the structural parser.
#[verifier::ext_equal]
pub struct ParseSt {
    /// Finished sections, in source order.
    pub sections: Seq<SectionV>,
    /// The open section, if a top-level heading has been seen.
    pub current: Option<SectionV>,
    /// Inline text accumulated for the line being built.
    pub buffer: Seq<char>,
    /// The destination of the open link, if any.
    pub link_dest: Option<Seq<char>>,
    /// Current list nesting depth.
    pub list_depth: nat,
    /// Inside a fenced code block.
    pub fence: bool,
    /// Inside a heading.
    pub in_heading: bool,
    /// The raw text of the open heading.
    pub heading_raw: Seq<char>,
    /// The escaped text of the open heading.
    pub heading_san: Seq<char>,
    /// Rows of the open table.
    pub table: Seq<Seq<Seq<char>>>,
    /// Cells of the open table row.
    pub row: Seq<Seq<char>>,
}

pub open spec fn parse_init() -> ParseSt {
    ParseSt {
        sections: Seq::empty(),
        current: Some(SectionV { title: Seq::empty(), lines: Seq::empty() }),
        buffer: Seq::empty(),
        link_dest: None,
        list_depth: 0,
        fence: false,
        in_heading: false,
        heading_raw: Seq::empty(),
        heading_san: Seq::empty(),
        table: Seq::empty(),
        row: Seq::empty(),
    }
}

/// A section worth emitting: the untitled leading section is kept only
/// when content actually reached it.
pub open spec fn section_nonempty(sec: SectionV) -> bool {
    sec.title.len() > 0 || sec.lines.len() > 0
}

/// Appends one line to the open section, when there is one.
pub open spec fn push_line(cur: Option<SectionV>, l: Seq<char>) -> Option<SectionV> {
    match cur {
        Option::Some(sec) => Option::Some(
            SectionV { title: sec.title, lines: sec.lines.push(l) },
        ),
        Option::None => Option::None,
    }
}

/// A finished buffer line turned into an emit-ready line: the bare-link
/// and mention rewrites applied.
pub open spec fn fixed_line(line: Seq<char>) -> Seq<char> {
    mentions_spec(fix_bare_link_spec(line), 0, 0)
}

/// A list item line: indented two spaces per nesting level past the
/// first, bullet-prefixed.
pub open spec fn bullet_line(line: Seq<char>, depth: nat) -> Seq<char> {
    spaces(2 * (if depth > 0 { (depth - 1) as int } else { 0 })) + "• "@ + fixed_line(line)
}

/// Inline text appended to the state: raw and escaped into an open
/// heading, verbatim inside a fence, escaped otherwise.
pub open spec fn text_step(st: ParseSt, t: Seq<char>) -> ParseSt {
    if st.in_heading {
        ParseSt {
            heading_raw: st.heading_raw + t,
            heading_san: st.heading_san + escape_spec(t),
            ..st
        }
    } else if st.fence {
        ParseSt { buffer: st.buffer + t, ..st }
    } else {
        ParseSt { buffer: st.buffer + escape_spec(t), ..st }
    }
}

/// A soft or hard break: a literal line break inside a fence, a single
/// space elsewhere.
pub open spec fn break_step(st: ParseSt) -> ParseSt {
    if st.fence {
        ParseSt { buffer: st.buffer.push('\n'), ..st }
    } else if st.in_heading {
        ParseSt {
            heading_raw: st.heading_raw.push(' '),
            heading_san: st.heading_san.push(' '),
            ..st
        }
    } else {
        ParseSt { buffer: st.buffer.push(' '), ..st }
    }
}

/// One document event applied to the parser state.
pub open spec fn parse_step(st: ParseSt, ev: crate::events::MdEv) -> ParseSt {
    match ev {
        crate::events::MdEv::HeadingStart(lvl) => {
            let st0 = ParseSt {
                in_heading: true,
                heading_raw: Seq::empty(),
                heading_san: Seq::empty(),
                ..st
            };
            if lvl == 2 {
                let cur1 = if st.current is Some && trim_spec(st.buffer).len() > 0 {
                    push_line(st.current, trim_spec(st.buffer))
                } else {
                    st.current
                };
                let secs = match cur1 {
                    Option::Some(sec) => if section_nonempty(sec) {
                        st.sections.push(sec)
                    } else {
                        st.sections
                    },
                    Option::None => st.sections,
                };
                ParseSt { sections: secs, current: None, buffer: Seq::empty(), ..st0 }
            } else if lvl == 1 || lvl == 3 || lvl == 4 {
                let cur1 = if st.current is Some && trim_end_spec(st.buffer).len() > 0 {
                    push_line(st.current, trim_end_spec(st.buffer))
                } else {
                    st.current
                };
                ParseSt { current: cur1, buffer: Seq::empty(), ..st0 }
            } else {
                st0
            }
        }
        crate::events::MdEv::HeadingEnd(lvl) => {
            let raw = trim_spec(st.heading_raw);
            let st0 = ParseSt {
                in_heading: false,
                heading_raw: Seq::empty(),
                heading_san: Seq::empty(),
                ..st
            };
            if lvl == 2 {
                ParseSt {
                    current: Some(SectionV { title: raw, lines: Seq::empty() }),
                    buffer: Seq::empty(),
                    ..st0
                }
            } else if lvl == 1 || lvl == 3 || lvl == 4 {
                let cur1 = if st.current is Some && raw.len() > 0 {
                    push_line(st.current, crate::headings::format_subheading_spec(raw))
                } else {
                    st.current
                };
                ParseSt { current: cur1, buffer: Seq::empty(), ..st0 }
            } else if st.current is Some {
                let san = trim_spec(st.heading_san);
                let cur1 = if san.len() > 0 {
                    push_line(st.current, fixed_line(san))
                } else {
                    st.current
                };
                ParseSt { current: cur1, buffer: Seq::empty(), ..st0 }
            } else {
                ParseSt { buffer: Seq::empty(), ..st0 }
            }
        }
        crate::events::MdEv::ListStart => {
            let line = trim_end_spec(st.buffer);
            if st.current is Some && line.len() > 0 {
                ParseSt {
                    current: push_line(st.current, bullet_line(line, st.list_depth)),
                    buffer: Seq::empty(),
                    list_depth: st.list_depth + 1,
                    ..st
                }
            } else {
                ParseSt { list_depth: st.list_depth + 1, ..st }
            }
        }
        crate::events::MdEv::ListEnd => ParseSt {
            list_depth: if st.list_depth > 0 {
                (st.list_depth - 1) as nat
            } else {
                0
            },
            ..st
        },
        crate::events::MdEv::ItemStart => ParseSt { buffer: Seq::empty(), ..st },
        crate::events::MdEv::ItemEnd => {
            let line = trim_end_spec(st.buffer);
            let cur1 = if st.current is Some && line.len() > 0 {
                push_line(st.current, bullet_line(line, st.list_depth))
            } else {
                st.current
            };
            ParseSt { current: cur1, buffer: Seq::empty(), ..st }
        }
        crate::events::MdEv::TableStart => {
            if trim_spec(st.buffer).len() > 0 {
                let cur1 = if st.current is Some {
                    push_line(st.current, trim_spec(st.buffer))
                } else {
                    st.current
                };
                ParseSt { table: Seq::empty(), current: cur1, buffer: Seq::empty(), ..st }
            } else {
                ParseSt { table: Seq::empty(), ..st }
            }
        }
        crate::events::MdEv::TableHeadStart => ParseSt { row: Seq::empty(), ..st },
        crate::events::MdEv::TableHeadEnd => ParseSt { table: st.table.push(st.row), ..st },
        crate::events::MdEv::RowStart => ParseSt { row: Seq::empty(), ..st },
        crate::events::MdEv::RowEnd => ParseSt { table: st.table.push(st.row), ..st },
        crate::events::MdEv::CellStart => ParseSt { buffer: Seq::empty(), ..st },
        crate::events::MdEv::CellEnd => ParseSt {
            row: st.row.push(normalize_table_spec(trim_spec(st.buffer))),
            buffer: Seq::empty(),
            ..st
        },
        crate::events::MdEv::TableEnd => {
            if st.current is Some {
                let cur1 = if st.table.len() > 0 {
                    push_line(st.current, render_table_spec(st.table))
                } else {
                    st.current
                };
                ParseSt { current: cur1, table: Seq::empty(), ..st }
            } else {
                st
            }
        }
        crate::events::MdEv::ParagraphEnd => {
            if st.list_depth > 0 {
                let t = trim_end_spec(st.buffer);
                ParseSt {
                    buffer: if t.len() > 0 {
                        t + seq!['\n']
                    } else {
                        Seq::empty()
                    },
                    ..st
                }
            } else if st.current is Some {
                let line = trim_end_spec(st.buffer);
                let cur1 = if line.len() > 0 {
                    push_line(st.current, fixed_line(line))
                } else {
                    st.current
                };
                ParseSt { current: cur1, buffer: Seq::empty(), ..st }
            } else {
                ParseSt { buffer: Seq::empty(), ..st }
            }
        }
        crate::events::MdEv::LinkStart(dest) => {
            if st.in_heading {
                ParseSt {
                    heading_raw: st.heading_raw.push('['),
                    heading_san: st.heading_san.push('['),
                    link_dest: Some(dest),
                    ..st
                }
            } else {
                ParseSt { buffer: st.buffer.push('['), link_dest: Some(dest), ..st }
            }
        }
        crate::events::MdEv::LinkEnd => {
            match st.link_dest {
                Option::Some(d) => {
                    if st.in_heading {
                        ParseSt {
                            heading_raw: st.heading_raw + "]("@ + d + seq![')'],
                            heading_san: st.heading_san + "]("@ + url_escape_spec(d)
                                + seq![')'],
                            link_dest: None,
                            ..st
                        }
                    } else {
                        ParseSt {
                            buffer: st.buffer + "]("@ + url_escape_spec(d) + seq![')'],
                            link_dest: None,
                            ..st
                        }
                    }
                }
                Option::None => st,
            }
        }
        crate::events::MdEv::QuoteStart => {
            let b1 = if st.buffer.len() > 0 && st.buffer.last() != '\n' {
                st.buffer.push('\n')
            } else {
                st.buffer
            };
            ParseSt { buffer: b1 + "\\> "@, ..st }
        }
        crate::events::MdEv::QuoteEnd => ParseSt { buffer: st.buffer.push('\n'), ..st },
        crate::events::MdEv::CodeStart => ParseSt {
            fence: true,
            buffer: st.buffer + "```\n"@,
            ..st
        },
        crate::events::MdEv::CodeEnd => {
            let b1 = if st.buffer.len() > 0 && st.buffer.last() == '\n' {
                st.buffer
            } else {
                st.buffer.push('\n')
            };
            ParseSt { fence: false, buffer: b1 + "```"@, ..st }
        }
        crate::events::MdEv::Text(t) => text_step(st, t),
        crate::events::MdEv::Code(t) => text_step(st, t),
        crate::events::MdEv::SoftBreak => break_step(st),
        crate::events::MdEv::HardBreak => break_step(st),
        crate::events::MdEv::Html(h) => {
            if crate::text::seq_starts_with(crate::text::trim_start_spec(h), "<br"@) {
                if st.in_heading {
                    ParseSt {
                        heading_raw: st.heading_raw.push(' '),
                        heading_san: st.heading_san.push(' '),
                        ..st
                    }
                } else {
                    ParseSt { buffer: st.buffer.push(' '), ..st }
                }
            } else {
                st
            }
        }
        crate::events::MdEv::Other => st,
    }
}

/// The parser folded over an event sequence.
pub open spec fn parse_run(st: ParseSt, evs: Seq<crate::events::MdEv>) -> ParseSt
    decreases evs.len()
{
    if evs.len() == 0 {
        st
    } else {
        parse_run(parse_step(st, evs[0]), evs.drop_first(), )
    }
}

pub proof fn lemma_parse_run_snoc(st: ParseSt, evs: Seq<crate::events::MdEv>, ev: crate::events::MdEv)
    ensures
        parse_run(st, evs.push(ev)) == parse_step(parse_run(st, evs), ev),
    decreases evs.len(),
{
    if evs.len() == 0 {
        assert(evs.push(ev)[0] == ev);
        assert(evs.push(ev).drop_first() =~= Seq::<crate::events::MdEv>::empty());
        assert(parse_run(st, evs.push(ev)) == parse_run(
            parse_step(st, ev),
            evs.push(ev).drop_first(),
        ));
        assert(parse_run(parse_step(st, ev), evs.push(ev).drop_first()) == parse_step(st, ev));
        assert(parse_run(st, evs) == st);
    } else {
        assert(evs.push(ev)[0] == evs[0]);
        assert(evs.push(ev).drop_first() =~= evs.drop_first().push(ev));
        lemma_parse_run_snoc(parse_step(st, evs[0]), evs.drop_first(), ev);
        assert(parse_run(st, evs.push(ev)) == parse_run(
            parse_step(st, evs[0]),
            evs.drop_first().push(ev),
        ));
        assert(parse_run(st, evs) == parse_run(parse_step(st, evs[0]), evs.drop_first()));
    }
}

/// Closes the scan: trailing content joins the last open section, which is
/// then finished; an untouched untitled section is not emitted.
pub open spec fn parse_finish(st: ParseSt) -> Seq<SectionV> {
    match st.current {
        Option::Some(sec) => {
            let t = trim_spec(st.buffer);
            let sec1 = if t.len() > 0 {
                SectionV { title: sec.title, lines: sec.lines.push(fixed_line(t)) }
            } else {
                sec
            };
            if section_nonempty(sec1) {
                st.sections.push(sec1)
            } else {
                st.sections
            }
        }
        Option::None => st.sections,
    }
}

/// The section sequence an event stream parses to.
pub open spec fn sections_of(evs: Seq<crate::events::MdEv>) -> Seq<SectionV> {
    parse_finish(parse_run(parse_init(), evs))
}

/// The section sequence a document parses to.
pub open spec fn parse_sections_spec(text: Seq<char>) -> Seq<SectionV> {
    sections_of(crate::events::md_events(text))
}


// ---------------------------------------------------------------------------
// The executable parser
// ---------------------------------------------------------------------------

/// The parser state assembled from the executable variables.
pub open spec fn exec_st(
    sections: Seq<SectionV>,
    has_cur: bool,
    cur_title: Seq<char>,
    cur_lines: Seq<Seq<char>>,
    buffer: Seq<char>,
    has_link: bool,
    link: Seq<char>,
    depth: nat,
    fence: bool,
    in_heading: bool,
    raw: Seq<char>,
    san: Seq<char>,
    table: Seq<Seq<Seq<char>>>,
    row: Seq<Seq<char>>,
) -> ParseSt {
    ParseSt {
        sections: sections,
        current: if has_cur {
            Option::Some(SectionV { title: cur_title, lines: cur_lines })
        } else {
            Option::None
        },
        buffer: buffer,
        link_dest: if has_link {
            Option::Some(link)
        } else {
            Option::None
        },
        list_depth: depth,
        fence: fence,
        in_heading: in_heading,
        heading_raw: raw,
        heading_san: san,
        table: table,
        row: row,
    }
}

/// Builds one finished section value.
fn make_section(title: &Vec<char>, lines: &Vec<Vec<char>>) -> (s: Section)
    ensures
        s.deep_view() == (SectionV { title: title@, lines: lines.deep_view() }),
{
    let t = chars_to_string(title);
    let mut ls: Vec<String> = Vec::new();
    let mut i: usize = 0;
    while i < lines.len()
        invariant
            i <= lines@.len(),
            ls.deep_view() == lines.deep_view().take(i as int),
        decreases lines@.len() - i,
    {
        let one = chars_to_string(&lines[i]);
        let ghost pre = ls.deep_view();
        ls.push(one);
        proof {
            assert(ls.deep_view() =~~= pre.push(lines@[i as int].deep_view()));
            assert(lines.deep_view().take(i + 1) =~~= lines.deep_view().take(i as int).push(
                lines@[i as int].deep_view(),
            ));
        }
        i += 1;
    }
    proof {
        assert(lines.deep_view().take(lines@.len() as int) =~~= lines.deep_view());
    }
    let s = Section { title: t, lines: ls };
    proof {
        assert(s.deep_view() =~~= (SectionV { title: title@, lines: lines.deep_view() }));
    }
    s
}

/// A fresh copy of a table row.
fn clone_row(row: &Vec<Vec<char>>) -> (r: Vec<Vec<char>>)
    ensures
        r.deep_view() == row.deep_view(),
{
    let mut r: Vec<Vec<char>> = Vec::new();
    let mut i: usize = 0;
    while i < row.len()
        invariant
            i <= row@.len(),
            r.deep_view() == row.deep_view().take(i as int),
        decreases row@.len() - i,
    {
        let one = subvec_all(&row[i]);
        let ghost pre = r.deep_view();
        r.push(one);
        proof {
            assert(r.deep_view() =~~= pre.push(row@[i as int].deep_view()));
            assert(row.deep_view().take(i + 1) =~~= row.deep_view().take(i as int).push(
                row@[i as int].deep_view(),
            ));
        }
        i += 1;
    }
    proof {
        assert(row.deep_view().take(row@.len() as int) =~~= row.deep_view());
    }
    r
}

/// One list item rendered as a line: two spaces of indent per nesting
/// level past the first, a bullet, and the rewritten item text.
fn bullet_make(line: &Vec<char>, depth: usize) -> (r: Vec<char>)
    ensures
        r@ == bullet_line(line@, depth as nat),
{
    let mut out: Vec<char> = Vec::new();
    if depth > 1 {
        let reps = depth - 1;
        let mut k: usize = 0;
        proof {
            assert(out@ =~= spaces(0));
        }
        while k < reps
            invariant
                k <= reps,
                out@ == spaces(2 * k as int),
            decreases reps - k,
        {
            out.push(' ');
            out.push(' ');
            proof {
                assert(spaces(2 * k as int + 1) == spaces(2 * k as int).push(' '));
                assert(spaces(2 * k as int + 2) == spaces(2 * k as int + 1).push(' '));
                assert(spaces(2 * k as int).push(' ').push(' ') =~= spaces(2 * (k + 1)));
            }
            k += 1;
        }
    } else {
        proof {
            assert(out@ =~= spaces(2 * (if depth > 0 { (depth - 1) as int } else { 0 })));
        }
    }
    push_str_chars(&mut out, "• ");
    let f = fix_bare_link(line);
    let m = replace_github_mentions(&f);
    push_all(&mut out, &m);
    proof {
        assert(out@ =~= bullet_line(line@, depth as nat));
    }
    out
}

/// The emit-ready form of a finished buffer line.
fn fixed_line_make(line: &Vec<char>) -> (r: Vec<char>)
    ensures
        r@ == fixed_line(line@),
{
    let f = fix_bare_link(line);
    replace_github_mentions(&f)
}


/// Walks an event stream and emits one section per top-level heading;
/// content preceding the first heading becomes a first section with an
/// empty title, and trailing content joins the last open section.
#[verifier::rlimit(100)]
pub fn parse_sections_events(evs: &Vec<MdEvent>) -> (r: Vec<Section>)
    ensures
        r.deep_view() == sections_of(evs.deep_view()),
{
    let n = evs.len();
    let mut out: Vec<Section> = Vec::new();
    let mut has_cur: bool = true;
    let mut cur_title: Vec<char> = Vec::new();
    let mut cur_lines: Vec<Vec<char>> = Vec::new();
    let mut buffer: Vec<char> = Vec::new();
    let mut has_link: bool = false;
    let mut link: Vec<char> = Vec::new();
    let mut depth: usize = 0;
    let mut fence: bool = false;
    let mut in_heading: bool = false;
    let mut raw: Vec<char> = Vec::new();
    let mut san: Vec<char> = Vec::new();
    let mut table: Vec<Vec<Vec<char>>> = Vec::new();
    let mut row: Vec<Vec<char>> = Vec::new();
    let mut ei: usize = 0;
    proof {
        assert(evs.deep_view().take(0) =~~= Seq::<MdEv>::empty());
        assert(exec_st(
            out.deep_view(),
            has_cur,
            cur_title@,
            cur_lines.deep_view(),
            buffer@,
            has_link,
            link@,
            depth as nat,
            fence,
            in_heading,
            raw@,
            san@,
            table.deep_view(),
            row.deep_view(),
        ) =~~= parse_init());
    }
    while ei < n
        invariant
            ei <= n,
            depth <= ei,
            n == evs@.len(),
            exec_st(
                out.deep_view(),
                has_cur,
                cur_title@,
                cur_lines.deep_view(),
                buffer@,
                has_link,
                link@,
                depth as nat,
                fence,
                in_heading,
                raw@,
                san@,
                table.deep_view(),
                row.deep_view(),
            ) == parse_run(parse_init(), evs.deep_view().take(ei as int)),
        decreases n - ei,
    {
        let ghost pre = exec_st(
            out.deep_view(),
            has_cur,
            cur_title@,
            cur_lines.deep_view(),
            buffer@,
            has_link,
            link@,
            depth as nat,
            fence,
            in_heading,
            raw@,
            san@,
            table.deep_view(),
            row.deep_view(),
        );
        let ghost gev = evs.deep_view()[ei as int];
        proof {
            assert(evs.deep_view().take(ei + 1) =~~= evs.deep_view().take(ei as int).push(gev));
            lemma_parse_run_snoc(parse_init(), evs.deep_view().take(ei as int), gev);
            assert(gev == evs@[ei as int]@);
        }
        let ev = &evs[ei];
        match ev {
            MdEvent::HeadingStart(lvl) => {
                let l: u8 = *lvl;
                in_heading = true;
                raw = Vec::new();
                san = Vec::new();
                if l == 2 {
                    if has_cur {
                        let t = trim_chars(&buffer);
                        if t.len() > 0 {
                            cur_lines.push(t);
                        }
                        if cur_title.len() > 0 || cur_lines.len() > 0 {
                            let sec = make_section(&cur_title, &cur_lines);
                            let ghost outpre = out.deep_view();
                            let ghost secv = sec.deep_view();
                            out.push(sec);
                            proof {
                                assert(out.deep_view() =~~= outpre.push(secv));
                            }
                        }
                        has_cur = false;
                        cur_title = Vec::new();
                        cur_lines = Vec::new();
                    }
                    buffer = Vec::new();
                } else if l == 1 || l == 3 || l == 4 {
                    if has_cur {
                        let t = trim_end_chars(&buffer);
                        if t.len() > 0 {
                            cur_lines.push(t);
                        }
                    }
                    buffer = Vec::new();
                }
                proof {
                    assert(exec_st(
                        out.deep_view(),
                        has_cur,
                        cur_title@,
                        cur_lines.deep_view(),
                        buffer@,
                        has_link,
                        link@,
                        depth as nat,
                        fence,
                        in_heading,
                        raw@,
                        san@,
                        table.deep_view(),
                        row.deep_view(),
                    ) =~~= parse_step(pre, gev));
                }
            }
            MdEvent::HeadingEnd(lvl) => {
                let l: u8 = *lvl;
                let rawt = trim_chars(&raw);
                in_heading = false;
                if l == 2 {
                    has_cur = true;
                    cur_title = rawt;
                    cur_lines = Vec::new();
                    buffer = Vec::new();
                } else if l == 1 || l == 3 || l == 4 {
                    if has_cur && rawt.len() > 0 {
                        let sub = crate::headings::format_subheading_chars(&rawt);
                        cur_lines.push(sub);
                    }
                    buffer = Vec::new();
                } else {
                    if has_cur {
                        let sant = trim_chars(&san);
                        if sant.len() > 0 {
                            let m = fixed_line_make(&sant);
                            cur_lines.push(m);
                        }
                    }
                    buffer = Vec::new();
                }
                raw = Vec::new();
                san = Vec::new();
                proof {
                    assert(exec_st(
                        out.deep_view(),
                        has_cur,
                        cur_title@,
                        cur_lines.deep_view(),
                        buffer@,
                        has_link,
                        link@,
                        depth as nat,
                        fence,
                        in_heading,
                        raw@,
                        san@,
                        table.deep_view(),
                        row.deep_view(),
                    ) =~~= parse_step(pre, gev));
                }
            }
            MdEvent::ListStart => {
                if has_cur {
                    let t = trim_end_chars(&buffer);
                    if t.len() > 0 {
                        let line = bullet_make(&t, depth);
                        cur_lines.push(line);
                        buffer = Vec::new();
                    }
                }
                depth += 1;
                proof {
                    assert(exec_st(
                        out.deep_view(),
                        has_cur,
                        cur_title@,
                        cur_lines.deep_view(),
                        buffer@,
                        has_link,
                        link@,
                        depth as nat,
                        fence,
                        in_heading,
                        raw@,
                        san@,
                        table.deep_view(),
                        row.deep_view(),
                    ) =~~= parse_step(pre, gev));
                }
            }
            MdEvent::ListEnd => {
                if depth > 0 {
                    depth -= 1;
                }
                proof {
                    assert(exec_st(
                        out.deep_view(),
                        has_cur,
                        cur_title@,
                        cur_lines.deep_view(),
                        buffer@,
                        has_link,
                        link@,
                        depth as nat,
                        fence,
                        in_heading,
                        raw@,
                        san@,
                        table.deep_view(),
                        row.deep_view(),
                    ) =~~= parse_step(pre, gev));
                }
            }
            MdEvent::ItemStart => {
                buffer = Vec::new();
                proof {
                    assert(exec_st(
                        out.deep_view(),
                        has_cur,
                        cur_title@,
                        cur_lines.deep_view(),
                        buffer@,
                        has_link,
                        link@,
                        depth as nat,
                        fence,
                        in_heading,
                        raw@,
                        san@,
                        table.deep_view(),
                        row.deep_view(),
                    ) =~~= parse_step(pre, gev));
                }
            }
            MdEvent::ItemEnd => {
                if has_cur {
                    let t = trim_end_chars(&buffer);
                    if t.len() > 0 {
                        let line = bullet_make(&t, depth);
                        cur_lines.push(line);
                    }
                }
                buffer = Vec::new();
                proof {
                    assert(exec_st(
                        out.deep_view(),
                        has_cur,
                        cur_title@,
                        cur_lines.deep_view(),
                        buffer@,
                        has_link,
                        link@,
                        depth as nat,
                        fence,
                        in_heading,
                        raw@,
                        san@,
                        table.deep_view(),
                        row.deep_view(),
                    ) =~~= parse_step(pre, gev));
                }
            }
            MdEvent::TableStart => {
                let t = trim_chars(&buffer);
                if t.len() > 0 {
                    if has_cur {
                        cur_lines.push(t);
                    }
                    buffer = Vec::new();
                }
                table = Vec::new();
                proof {
                    assert(table.deep_view() =~~= Seq::<Seq<Seq<char>>>::empty());
                    assert(exec_st(
                        out.deep_view(),
                        has_cur,
                        cur_title@,
                        cur_lines.deep_view(),
                        buffer@,
                        has_link,
                        link@,
                        depth as nat,
                        fence,
                        in_heading,
                        raw@,
                        san@,
                        table.deep_view(),
                        row.deep_view(),
                    ) =~~= parse_step(pre, gev));
                }
            }
            MdEvent::TableHeadStart => {
                row = Vec::new();
                proof {
                    assert(row.deep_view() =~~= Seq::<Seq<char>>::empty());
                    assert(exec_st(
                        out.deep_view(),
                        has_cur,
                        cur_title@,
                        cur_lines.deep_view(),
                        buffer@,
                        has_link,
                        link@,
                        depth as nat,
                        fence,
                        in_heading,
                        raw@,
                        san@,
                        table.deep_view(),
                        row.deep_view(),
                    ) =~~= parse_step(pre, gev));
                }
            }
            MdEvent::TableHeadEnd => {
                let copy = clone_row(&row);
                let ghost tpre = table.deep_view();
                table.push(copy);
                proof {
                    assert(table.deep_view() =~~= tpre.push(row.deep_view()));
                    assert(exec_st(
                        out.deep_view(),
                        has_cur,
                        cur_title@,
                        cur_lines.deep_view(),
                        buffer@,
                        has_link,
                        link@,
                        depth as nat,
                        fence,
                        in_heading,
                        raw@,
                        san@,
                        table.deep_view(),
                        row.deep_view(),
                    ) =~~= parse_step(pre, gev));
                }
            }
            MdEvent::RowStart => {
                row = Vec::new();
                proof {
                    assert(row.deep_view() =~~= Seq::<Seq<char>>::empty());
                    assert(exec_st(
                        out.deep_view(),
                        has_cur,
                        cur_title@,
                        cur_lines.deep_view(),
                        buffer@,
                        has_link,
                        link@,
                        depth as nat,
                        fence,
                        in_heading,
                        raw@,
                        san@,
                        table.deep_view(),
                        row.deep_view(),
                    ) =~~= parse_step(pre, gev));
                }
            }
            MdEvent::RowEnd => {
                let copy = clone_row(&row);
                let ghost tpre = table.deep_view();
                table.push(copy);
                proof {
                    assert(table.deep_view() =~~= tpre.push(row.deep_view()));
                    assert(exec_st(
                        out.deep_view(),
                        has_cur,
                        cur_title@,
                        cur_lines.deep_view(),
                        buffer@,
                        has_link,
                        link@,
                        depth as nat,
                        fence,
                        in_heading,
                        raw@,
                        san@,
                        table.deep_view(),
                        row.deep_view(),
                    ) =~~= parse_step(pre, gev));
                }
            }
            MdEvent::CellStart => {
                buffer = Vec::new();
                proof {
                    assert(exec_st(
                        out.deep_view(),
                        has_cur,
                        cur_title@,
                        cur_lines.deep_view(),
                        buffer@,
                        has_link,
                        link@,
                        depth as nat,
                        fence,
                        in_heading,
                        raw@,
                        san@,
                        table.deep_view(),
                        row.deep_view(),
                    ) =~~= parse_step(pre, gev));
                }
            }
            MdEvent::CellEnd => {
                let t = trim_chars(&buffer);
                let cell = normalize_table_text(&t);
                let ghost rpre = row.deep_view();
                let ghost cellv = cell@;
                row.push(cell);
                buffer = Vec::new();
                proof {
                    assert(row.deep_view() =~~= rpre.push(cellv));
                    assert(exec_st(
                        out.deep_view(),
                        has_cur,
                        cur_title@,
                        cur_lines.deep_view(),
                        buffer@,
                        has_link,
                        link@,
                        depth as nat,
                        fence,
                        in_heading,
                        raw@,
                        san@,
                        table.deep_view(),
                        row.deep_view(),
                    ) =~~= parse_step(pre, gev));
                }
            }
            MdEvent::TableEnd => {
                if has_cur {
                    if table.len() > 0 {
                        let rendered = render_table(&table);
                        cur_lines.push(rendered);
                    }
                    table = Vec::new();
                    proof {
                        assert(table.deep_view() =~~= Seq::<Seq<Seq<char>>>::empty());
                    }
                }
                proof {
                    assert(exec_st(
                        out.deep_view(),
                        has_cur,
                        cur_title@,
                        cur_lines.deep_view(),
                        buffer@,
                        has_link,
                        link@,
                        depth as nat,
                        fence,
                        in_heading,
                        raw@,
                        san@,
                        table.deep_view(),
                        row.deep_view(),
                    ) =~~= parse_step(pre, gev));
                }
            }
            MdEvent::ParagraphEnd => {
                if depth > 0 {
                    let t = trim_end_chars(&buffer);
                    buffer = Vec::new();
                    if t.len() > 0 {
                        buffer = t;
                        buffer.push('\n');
                    }
                } else if has_cur {
                    let t = trim_end_chars(&buffer);
                    if t.len() > 0 {
                        let m = fixed_line_make(&t);
                        cur_lines.push(m);
                    }
                    buffer = Vec::new();
                } else {
                    buffer = Vec::new();
                }
                proof {
                    assert(exec_st(
                        out.deep_view(),
                        has_cur,
                        cur_title@,
                        cur_lines.deep_view(),
                        buffer@,
                        has_link,
                        link@,
                        depth as nat,
                        fence,
                        in_heading,
                        raw@,
                        san@,
                        table.deep_view(),
                        row.deep_view(),
                    ) =~~= parse_step(pre, gev));
                }
            }
            MdEvent::LinkStart(dest) => {
                if in_heading {
                    raw.push('[');
                    san.push('[');
                } else {
                    buffer.push('[');
                }
                link = str_chars(dest.as_str());
                has_link = true;
                proof {
                    assert(exec_st(
                        out.deep_view(),
                        has_cur,
                        cur_title@,
                        cur_lines.deep_view(),
                        buffer@,
                        has_link,
                        link@,
                        depth as nat,
                        fence,
                        in_heading,
                        raw@,
                        san@,
                        table.deep_view(),
                        row.deep_view(),
                    ) =~~= parse_step(pre, gev));
                }
            }
            MdEvent::LinkEnd => {
                if has_link {
                    if in_heading {
                        push_str_chars(&mut raw, "](");
                        push_all(&mut raw, &link);
                        raw.push(')');
                        push_str_chars(&mut san, "](");
                        let eu = url_escape_chars(&link);
                        push_all(&mut san, &eu);
                        san.push(')');
                    } else {
                        push_str_chars(&mut buffer, "](");
                        let eu = url_escape_chars(&link);
                        push_all(&mut buffer, &eu);
                        buffer.push(')');
                    }
                    has_link = false;
                    proof {
                        assert(raw@ =~= pre.heading_raw + "]("@ + pre.link_dest->Some_0
                            + seq![')'] || !pre.in_heading);
                    }
                }
                proof {
                    assert(exec_st(
                        out.deep_view(),
                        has_cur,
                        cur_title@,
                        cur_lines.deep_view(),
                        buffer@,
                        has_link,
                        link@,
                        depth as nat,
                        fence,
                        in_heading,
                        raw@,
                        san@,
                        table.deep_view(),
                        row.deep_view(),
                    ) =~~= parse_step(pre, gev));
                }
            }
            MdEvent::QuoteStart => {
                if buffer.len() > 0 && buffer[buffer.len() - 1] != '\n' {
                    buffer.push('\n');
                }
                push_str_chars(&mut buffer, "\\> ");
                proof {
                    assert(exec_st(
                        out.deep_view(),
                        has_cur,
                        cur_title@,
                        cur_lines.deep_view(),
                        buffer@,
                        has_link,
                        link@,
                        depth as nat,
                        fence,
                        in_heading,
                        raw@,
                        san@,
                        table.deep_view(),
                        row.deep_view(),
                    ) =~~= parse_step(pre, gev));
                }
            }
            MdEvent::QuoteEnd => {
                buffer.push('\n');
                proof {
                    assert(exec_st(
                        out.deep_view(),
                        has_cur,
                        cur_title@,
                        cur_lines.deep_view(),
                        buffer@,
                        has_link,
                        link@,
                        depth as nat,
                        fence,
                        in_heading,
                        raw@,
                        san@,
                        table.deep_view(),
                        row.deep_view(),
                    ) =~~= parse_step(pre, gev));
                }
            }
            MdEvent::CodeStart => {
                fence = true;
                push_str_chars(&mut buffer, "```\n");
                proof {
                    assert(exec_st(
                        out.deep_view(),
                        has_cur,
                        cur_title@,
                        cur_lines.deep_view(),
                        buffer@,
                        has_link,
                        link@,
                        depth as nat,
                        fence,
                        in_heading,
                        raw@,
                        san@,
                        table.deep_view(),
                        row.deep_view(),
                    ) =~~= parse_step(pre, gev));
                }
            }
            MdEvent::CodeEnd => {
                fence = false;
                if !(buffer.len() > 0 && buffer[buffer.len() - 1] == '\n') {
                    buffer.push('\n');
                }
                push_str_chars(&mut buffer, "```");
                proof {
                    assert(exec_st(
                        out.deep_view(),
                        has_cur,
                        cur_title@,
                        cur_lines.deep_view(),
                        buffer@,
                        has_link,
                        link@,
                        depth as nat,
                        fence,
                        in_heading,
                        raw@,
                        san@,
                        table.deep_view(),
                        row.deep_view(),
                    ) =~~= parse_step(pre, gev));
                }
            }
            MdEvent::Text(t) => {
                let tv = str_chars(t.as_str());
                if in_heading {
                    push_all(&mut raw, &tv);
                    let e = escape_chars(&tv);
                    push_all(&mut san, &e);
                } else if fence {
                    push_all(&mut buffer, &tv);
                } else {
                    let e = escape_chars(&tv);
                    push_all(&mut buffer, &e);
                }
                proof {
                    assert(exec_st(
                        out.deep_view(),
                        has_cur,
                        cur_title@,
                        cur_lines.deep_view(),
                        buffer@,
                        has_link,
                        link@,
                        depth as nat,
                        fence,
                        in_heading,
                        raw@,
                        san@,
                        table.deep_view(),
                        row.deep_view(),
                    ) =~~= parse_step(pre, gev));
                }
            }
            MdEvent::Code(t) => {
                let tv = str_chars(t.as_str());
                if in_heading {
                    push_all(&mut raw, &tv);
                    let e = escape_chars(&tv);
                    push_all(&mut san, &e);
                } else if fence {
                    push_all(&mut buffer, &tv);
                } else {
                    let e = escape_chars(&tv);
                    push_all(&mut buffer, &e);
                }
                proof {
                    assert(exec_st(
                        out.deep_view(),
                        has_cur,
                        cur_title@,
                        cur_lines.deep_view(),
                        buffer@,
                        has_link,
                        link@,
                        depth as nat,
                        fence,
                        in_heading,
                        raw@,
                        san@,
                        table.deep_view(),
                        row.deep_view(),
                    ) =~~= parse_step(pre, gev));
                }
            }
            MdEvent::SoftBreak => {
                if fence {
                    buffer.push('\n');
                } else if in_heading {
                    raw.push(' ');
                    san.push(' ');
                } else {
                    buffer.push(' ');
                }
                proof {
                    assert(exec_st(
                        out.deep_view(),
                        has_cur,
                        cur_title@,
                        cur_lines.deep_view(),
                        buffer@,
                        has_link,
                        link@,
                        depth as nat,
                        fence,
                        in_heading,
                        raw@,
                        san@,
                        table.deep_view(),
                        row.deep_view(),
                    ) =~~= parse_step(pre, gev));
                }
            }
            MdEvent::HardBreak => {
                if fence {
                    buffer.push('\n');
                } else if in_heading {
                    raw.push(' ');
                    san.push(' ');
                } else {
                    buffer.push(' ');
                }
                proof {
                    assert(exec_st(
                        out.deep_view(),
                        has_cur,
                        cur_title@,
                        cur_lines.deep_view(),
                        buffer@,
                        has_link,
                        link@,
                        depth as nat,
                        fence,
                        in_heading,
                        raw@,
                        san@,
                        table.deep_view(),
                        row.deep_view(),
                    ) =~~= parse_step(pre, gev));
                }
            }
            MdEvent::Html(h) => {
                let hv = str_chars(h.as_str());
                let ts = trim_start_chars(&hv);
                let br = str_chars("<br");
                if starts_with_chars(&ts, &br) {
                    if in_heading {
                        raw.push(' ');
                        san.push(' ');
                    } else {
                        buffer.push(' ');
                    }
                }
                proof {
                    assert(exec_st(
                        out.deep_view(),
                        has_cur,
                        cur_title@,
                        cur_lines.deep_view(),
                        buffer@,
                        has_link,
                        link@,
                        depth as nat,
                        fence,
                        in_heading,
                        raw@,
                        san@,
                        table.deep_view(),
                        row.deep_view(),
                    ) =~~= parse_step(pre, gev));
                }
            }
            MdEvent::Other => {
                proof {
                    assert(exec_st(
                        out.deep_view(),
                        has_cur,
                        cur_title@,
                        cur_lines.deep_view(),
                        buffer@,
                        has_link,
                        link@,
                        depth as nat,
                        fence,
                        in_heading,
                        raw@,
                        san@,
                        table.deep_view(),
                        row.deep_view(),
                    ) =~~= parse_step(pre, gev));
                }
            }
        }
        ei += 1;
    }
    proof {
        assert(evs.deep_view().take(n as int) =~~= evs.deep_view());
    }
    if has_cur {
        let t = trim_chars(&buffer);
        if t.len() > 0 {
            let m = fixed_line_make(&t);
            cur_lines.push(m);
        }
        if cur_title.len() > 0 || cur_lines.len() > 0 {
            let sec = make_section(&cur_title, &cur_lines);
            let ghost outpre = out.deep_view();
            let ghost secv = sec.deep_view();
            out.push(sec);
            proof {
                assert(out.deep_view() =~~= outpre.push(secv));
            }
        }
        proof {
            assert(out.deep_view() =~~= sections_of(evs.deep_view()));
        }
    } else {
        proof {
            assert(out.deep_view() =~~= sections_of(evs.deep_view()));
        }
    }
    out
}

/// Parses the source document into its ordered sections.
pub fn parse_sections(text: &str) -> (r: Vec<Section>)
    ensures
        r.deep_view() == parse_sections_spec(text@),
{
    let evs = crate::events::parse_events(text);
    parse_sections_events(&evs)
}

/// Law: the parser is a pure function of its document, so running it
/// twice on the same document yields identical section sequences.
pub proof fn lemma_parse_idempotent(a: Seq<SectionV>, b: Seq<SectionV>, text: Seq<char>)
    requires
        a == parse_sections_spec(text),
        b == parse_sections_spec(text),
    ensures
        a == b,
{
}

} // verus!
