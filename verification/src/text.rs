//! Character-sequence utilities shared by the whole pipeline.
//!
//! Text is modelled as `Seq<char>` (the view of `String` / `&str`) and
//! manipulated at the executable level as `Vec<char>`.  Every helper here
//! has an exact contract over that model.

use vstd::prelude::*;
use vstd::std_specs::iter::IteratorSpec;

verus! {

broadcast use vstd::string::group_string_axioms;

// ---------------------------------------------------------------------------
// Basic predicates
// ---------------------------------------------------------------------------

/// ASCII whitespace, the only whitespace this pipeline trims.
pub open spec fn is_ws(c: char) -> bool {
    c == ' ' || c == '\t' || c == '\n' || c == '\r' || c == '\u{b}' || c == '\u{c}'
}

/// `p` occurs in `s` at position `i`.
pub open spec fn match_at(s: Seq<char>, p: Seq<char>, i: int) -> bool {
    0 <= i && i + p.len() <= s.len() && s.subrange(i, i + p.len() as int) == p
}

pub open spec fn seq_starts_with(s: Seq<char>, p: Seq<char>) -> bool {
    match_at(s, p, 0)
}

pub open spec fn seq_ends_with(s: Seq<char>, p: Seq<char>) -> bool {
    p.len() <= s.len() && match_at(s, p, s.len() - p.len())
}

/// Position of the leftmost occurrence of `p` in `s` at or after `from`.
pub open spec fn first_match(s: Seq<char>, p: Seq<char>, from: int) -> Option<int>
    decreases s.len() + 1 - from when 0 <= from <= s.len()
{
    if from + p.len() > s.len() {
        None
    } else if s.subrange(from, from + p.len() as int) == p {
        Some(from)
    } else {
        first_match(s, p, from + 1)
    }
}

pub open spec fn seq_contains_sub(s: Seq<char>, p: Seq<char>) -> bool {
    first_match(s, p, 0) is Some
}

pub proof fn lemma_first_match_bounds(s: Seq<char>, p: Seq<char>, from: int)
    requires
        0 <= from <= s.len(),
    ensures
        match first_match(s, p, from) {
            Option::Some(i) => from <= i && match_at(s, p, i),
            Option::None => true,
        },
    decreases s.len() + 1 - from,
{
    if from + p.len() > s.len() {
    } else if s.subrange(from, from + p.len() as int) == p {
    } else {
        if p.len() == 0 {
            assert(s.subrange(from, from) =~= p);
        }
        lemma_first_match_bounds(s, p, from + 1);
    }
}

// ---------------------------------------------------------------------------
// Trimming
// ---------------------------------------------------------------------------

/// Number of leading whitespace characters.
pub open spec fn ws_prefix_len(s: Seq<char>) -> nat
    decreases s.len()
{
    if s.len() == 0 || !is_ws(s[0]) {
        0
    } else {
        1 + ws_prefix_len(s.skip(1))
    }
}

/// Number of trailing whitespace characters.
pub open spec fn ws_suffix_len(s: Seq<char>) -> nat
    decreases s.len()
{
    if s.len() == 0 || !is_ws(s.last()) {
        0
    } else {
        1 + ws_suffix_len(s.drop_last())
    }
}

pub open spec fn trim_start_spec(s: Seq<char>) -> Seq<char> {
    s.skip(ws_prefix_len(s) as int)
}

pub open spec fn trim_end_spec(s: Seq<char>) -> Seq<char> {
    s.take(s.len() - ws_suffix_len(s))
}

pub open spec fn trim_spec(s: Seq<char>) -> Seq<char> {
    trim_start_spec(trim_end_spec(s))
}

proof fn lemma_ws_prefix_at(s: Seq<char>, i: int)
    requires
        0 <= i <= s.len(),
        forall|k: int| 0 <= k < i ==> is_ws(#[trigger] s[k]),
        i == s.len() || !is_ws(s[i]),
    ensures
        ws_prefix_len(s) == i,
    decreases s.len(),
{
    if s.len() == 0 {
    } else if i == 0 {
        if s.len() > 0 && is_ws(s[0]) {
            assert(false);
        }
    } else {
        assert(is_ws(s[0]));
        lemma_ws_prefix_at(s.skip(1), i - 1);
    }
}

proof fn lemma_ws_suffix_at(s: Seq<char>, j: int)
    requires
        0 <= j <= s.len(),
        forall|k: int| j <= k < s.len() ==> is_ws(#[trigger] s[k]),
        j == 0 || !is_ws(s[j - 1]),
    ensures
        ws_suffix_len(s) == s.len() - j,
    decreases s.len(),
{
    if s.len() == 0 {
    } else if j == s.len() {
        if is_ws(s.last()) {
            assert(false);
        }
    } else {
        assert(is_ws(s.last()));
        lemma_ws_suffix_at(s.drop_last(), j);
    }
}

// ---------------------------------------------------------------------------
// Lines
// ---------------------------------------------------------------------------

/// One segment of `lines_of`: the text up to a line break, with one
/// trailing carriage return removed.
pub open spec fn strip_cr(s: Seq<char>) -> Seq<char> {
    if s.len() > 0 && s.last() == '\r' {
        s.drop_last()
    } else {
        s
    }
}

/// The line decomposition used by the pipeline: segments split at `'\n'`,
/// each with a trailing `'\r'` removed, and no final empty segment for a
/// trailing line break.  The last segment, when it is not terminated by a
/// line break, keeps a trailing carriage return.
pub open spec fn lines_of(s: Seq<char>) -> Seq<Seq<char>>
    decreases s.len(),
    via lines_of_dec
{
    if s.len() == 0 {
        Seq::empty()
    } else {
        match first_match(s, seq!['\n'], 0) {
            Option::Some(i) => seq![strip_cr(s.take(i))] + lines_of(s.skip(i + 1)),
            Option::None => seq![s],
        }
    }
}

#[via_fn]
proof fn lines_of_dec(s: Seq<char>) {
    if s.len() > 0 {
        lemma_first_match_bounds(s, seq!['\n'], 0);
    }
}

/// The segments of `lines_of`, joined back with single line breaks.
pub open spec fn join_lines(ls: Seq<Seq<char>>) -> Seq<char>
    decreases ls.len()
{
    if ls.len() == 0 {
        Seq::empty()
    } else if ls.len() == 1 {
        ls[0]
    } else {
        ls[0] + seq!['\n'] + join_lines(ls.drop_first())
    }
}

// ---------------------------------------------------------------------------
// Replacement
// ---------------------------------------------------------------------------

/// Replace every non-overlapping occurrence of `pat` in `s` by `rep`,
/// scanning left to right.  An empty pattern leaves `s` unchanged.
pub open spec fn replace_spec(s: Seq<char>, pat: Seq<char>, rep: Seq<char>) -> Seq<char>
    decreases s.len(),
    via replace_spec_dec
{
    if pat.len() == 0 {
        s
    } else {
        match first_match(s, pat, 0) {
            Option::Some(i) => s.take(i) + rep + replace_spec(
                s.skip(i + pat.len() as int),
                pat,
                rep,
            ),
            Option::None => s,
        }
    }
}

#[via_fn]
proof fn replace_spec_dec(s: Seq<char>, pat: Seq<char>, rep: Seq<char>) {
    lemma_first_match_bounds(s, pat, 0);
    if pat.len() == 0 {
        assert(s.subrange(0, 0) =~= pat);
    }
}

// ---------------------------------------------------------------------------
// ASCII case
// ---------------------------------------------------------------------------

pub open spec fn lower_char(c: char) -> char {
    if 'A' <= c && c <= 'Z' {
        ((c as u32) + 32) as char
    } else {
        c
    }
}

pub open spec fn lower_spec(s: Seq<char>) -> Seq<char> {
    s.map_values(|c: char| lower_char(c))
}

// ---------------------------------------------------------------------------
// UTF-8 length
// ---------------------------------------------------------------------------

/// Width in bytes of the UTF-8 encoding of one character.
pub open spec fn char_utf8_width(c: char) -> nat {
    if (c as u32) < 0x80 {
        1
    } else if (c as u32) < 0x800 {
        2
    } else if (c as u32) < 0x10000 {
        3
    } else {
        4
    }
}

/// Length in bytes of the UTF-8 encoding of a character sequence.
pub open spec fn utf8_len(s: Seq<char>) -> nat
    decreases s.len()
{
    if s.len() == 0 {
        0
    } else {
        char_utf8_width(s[0]) + utf8_len(s.skip(1))
    }
}

pub proof fn lemma_utf8_len_bounds(s: Seq<char>)
    ensures
        s.len() <= utf8_len(s) <= 4 * s.len(),
    decreases s.len(),
{
    if s.len() > 0 {
        lemma_utf8_len_bounds(s.skip(1));
    }
}

pub proof fn lemma_utf8_len_push(s: Seq<char>, c: char)
    ensures
        utf8_len(s.push(c)) == utf8_len(s) + char_utf8_width(c),
    decreases s.len(),
{
    if s.len() == 0 {
        assert(s.push(c)[0] == c);
        assert(s.push(c).skip(1) =~= Seq::<char>::empty());
        assert(utf8_len(Seq::<char>::empty()) == 0);
        assert(utf8_len(s.push(c)) == char_utf8_width(c) + utf8_len(Seq::<char>::empty()));
    } else {
        assert(s.push(c)[0] == s[0]);
        assert(s.push(c).skip(1) =~= s.skip(1).push(c));
        lemma_utf8_len_push(s.skip(1), c);
        assert(utf8_len(s.push(c)) == char_utf8_width(s[0]) + utf8_len(s.skip(1).push(c)));
        assert(utf8_len(s) == char_utf8_width(s[0]) + utf8_len(s.skip(1)));
    }
}

pub proof fn lemma_utf8_len_concat(a: Seq<char>, b: Seq<char>)
    ensures
        utf8_len(a + b) == utf8_len(a) + utf8_len(b),
    decreases a.len(),
{
    if a.len() == 0 {
        assert(a + b =~= b);
    } else {
        assert((a + b).skip(1) =~= a.skip(1) + b);
        lemma_utf8_len_concat(a.skip(1), b);
    }
}

// ---------------------------------------------------------------------------
// Decimal rendering
// ---------------------------------------------------------------------------

pub open spec fn dec_digit(d: nat) -> char
    recommends d < 10
{
    (('0' as u32) + d as u32) as char
}

/// Decimal digits of `n`, most significant first.
pub open spec fn dec_spec(n: nat) -> Seq<char>
    decreases n
{
    if n < 10 {
        seq![dec_digit(n)]
    } else {
        dec_spec(n / 10).push(dec_digit(n % 10))
    }
}

// ---------------------------------------------------------------------------
// Executable helpers
// ---------------------------------------------------------------------------

/// The characters of a string slice, in order.
pub fn str_chars(s: &str) -> (v: Vec<char>)
    ensures
        v@ == s@,
{
    let ghost total: Seq<char> = s@;
    let mut it = s.chars();
    let mut v: Vec<char> = Vec::new();
    loop
        invariant
            it.obeys_prophetic_iter_laws(),
            IteratorSpec::decrease(&it) is Some,
            v@ + IteratorSpec::remaining(&it) == total,
        ensures
            v@ == total,
        decreases IteratorSpec::decrease(&it)->0,
    {
        match it.next() {
            Option::Some(c) => {
                v.push(c);
            }
            Option::None => {
                proof {
                    assert(v@ + IteratorSpec::remaining(&it) =~= v@);
                }
                break;
            }
        }
    }
    v
}

/// Builds a `String` back from a character vector.
/// Relies on `String::from_iter` over `core::iter::Copied`: collecting
/// characters yields the string with exactly those characters in order.
#[verifier::external_body]
pub fn chars_to_string(v: &Vec<char>) -> (r: String)
    ensures
        r@ == v@,
{
    v.iter().copied().collect()
}

/// Appends all characters of `src` to `dst`.
pub fn push_all(dst: &mut Vec<char>, src: &Vec<char>)
    ensures
        final(dst)@ == old(dst)@ + src@,
{
    let mut i: usize = 0;
    while i < src.len()
        invariant
            i <= src.len(),
            dst@ == old(dst)@ + src@.take(i as int),
        decreases src.len() - i,
    {
        dst.push(src[i]);
        proof {
            assert(old(dst)@ + src@.take(i as int) + seq![src@[i as int]]
                =~= old(dst)@ + src@.take(i + 1));
        }
        i += 1;
    }
    proof {
        assert(src@.take(src@.len() as int) =~= src@);
    }
}

/// Appends the characters of a string slice to `dst`.
pub fn push_str_chars(dst: &mut Vec<char>, s: &str)
    ensures
        final(dst)@ == old(dst)@ + s@,
{
    let v = str_chars(s);
    push_all(dst, &v);
}

/// Copy of `v[from..to]`.
pub fn subvec(v: &Vec<char>, from: usize, to: usize) -> (r: Vec<char>)
    requires
        from <= to <= v@.len(),
    ensures
        r@ == v@.subrange(from as int, to as int),
{
    let mut r: Vec<char> = Vec::new();
    let mut i: usize = from;
    while i < to
        invariant
            from <= i <= to <= v@.len(),
            r@ == v@.subrange(from as int, i as int),
        decreases to - i,
    {
        r.push(v[i]);
        proof {
            assert(v@.subrange(from as int, i as int).push(v@[i as int])
                =~= v@.subrange(from as int, i + 1));
        }
        i += 1;
    }
    r
}

/// Character-for-character equality.
pub fn chars_eq(a: &Vec<char>, b: &Vec<char>) -> (r: bool)
    ensures
        r == (a@ == b@),
{
    if a.len() != b.len() {
        proof {
            assert(a@ != b@);
        }
        return false;
    }
    let mut i: usize = 0;
    while i < a.len()
        invariant
            a@.len() == b@.len(),
            i <= a@.len(),
            forall|k: int| 0 <= k < i ==> a@[k] == b@[k],
        decreases a.len() - i,
    {
        if a[i] != b[i] {
            return false;
        }
        i += 1;
    }
    proof {
        assert(a@ =~= b@);
    }
    true
}

/// Does `v` contain `p` starting at `at`?
pub fn matches_at(v: &Vec<char>, p: &Vec<char>, at: usize) -> (r: bool)
    requires
        at <= v@.len(),
    ensures
        r == match_at(v@, p@, at as int),
{
    if p.len() > v.len() - at {
        return false;
    }
    let mut i: usize = 0;
    while i < p.len()
        invariant
            at <= v@.len(),
            v@.len() <= usize::MAX,
            at + p@.len() <= v@.len(),
            i <= p@.len(),
            forall|k: int| 0 <= k < i ==> v@[at + k] == p@[k],
        decreases p.len() - i,
    {
        if v[at + i] != p[i] {
            proof {
                assert(v@.subrange(at as int, at + p@.len() as int)[i as int] == v@[at + i]);
            }
            return false;
        }
        i += 1;
    }
    proof {
        assert(v@.subrange(at as int, at + p@.len() as int) =~= p@);
    }
    true
}

pub fn starts_with_chars(v: &Vec<char>, p: &Vec<char>) -> (r: bool)
    ensures
        r == seq_starts_with(v@, p@),
{
    matches_at(v, p, 0)
}

pub fn ends_with_chars(v: &Vec<char>, p: &Vec<char>) -> (r: bool)
    ensures
        r == seq_ends_with(v@, p@),
{
    if p.len() > v.len() {
        return false;
    }
    matches_at(v, p, v.len() - p.len())
}

/// Leftmost occurrence of `p` in `v` at or after `from`.
pub fn find_sub(v: &Vec<char>, p: &Vec<char>, from: usize) -> (r: Option<usize>)
    requires
        from <= v@.len(),
    ensures
        match r {
            Option::Some(i) => first_match(v@, p@, from as int) == Option::Some(i as int)
                && from <= i && i + p@.len() <= v@.len(),
            Option::None => first_match(v@, p@, from as int) is None,
        },
{
    if p.len() == 0 {
        proof {
            assert(v@.subrange(from as int, from as int) =~= p@);
        }
        return Some(from);
    }
    if p.len() > v.len() - from {
        return None;
    }
    let last: usize = v.len() - p.len();
    let mut i: usize = from;
    let mut found: bool = false;
    loop
        invariant_except_break
            !found,
        invariant
            from <= i <= last + 1,
            last < usize::MAX,
            last == v@.len() - p@.len(),
            from + p@.len() <= v@.len(),
            p@.len() > 0,
            first_match(v@, p@, from as int) == first_match(v@, p@, i as int),
        ensures
            p@.len() > 0,
            from <= i,
            last == v@.len() - p@.len(),
            first_match(v@, p@, from as int) == first_match(v@, p@, i as int),
            found ==> i <= last && match_at(v@, p@, i as int),
            !found ==> i == last + 1,
        decreases last + 1 - i,
    {
        if i > last {
            break;
        }
        if matches_at(v, p, i) {
            found = true;
            break;
        }
        i += 1;
    }
    if found {
        proof {
            assert(first_match(v@, p@, i as int) == Option::Some(i as int));
        }
        Some(i)
    } else {
        proof {
            assert(first_match(v@, p@, i as int) is None);
        }
        None
    }
}

pub fn contains_sub(v: &Vec<char>, p: &Vec<char>) -> (r: bool)
    ensures
        r == seq_contains_sub(v@, p@),
{
    match find_sub(v, p, 0) {
        Option::Some(_) => true,
        Option::None => false,
    }
}


// ---------------------------------------------------------------------------
// Shift lemmas connecting scans on a suffix to scans on the whole sequence
// ---------------------------------------------------------------------------

pub proof fn lemma_first_match_shift(s: Seq<char>, p: Seq<char>, k: int, from: int)
    requires
        0 <= k <= from <= s.len(),
    ensures
        first_match(s, p, from) == match first_match(s.skip(k), p, from - k) {
            Option::Some(i) => Option::Some(i + k),
            Option::None => Option::<int>::None,
        },
    decreases s.len() + 1 - from,
{
    if from + p.len() > s.len() {
    } else {
        assert(s.subrange(from, from + p.len() as int) =~= s.skip(k).subrange(
            from - k,
            from - k + p.len() as int,
        ));
        if s.subrange(from, from + p.len() as int) == p {
        } else {
            if p.len() == 0 {
                assert(s.subrange(from, from) =~= p);
            }
            lemma_first_match_shift(s, p, k, from + 1);
        }
    }
}

/// Appending `join_lines` one segment at a time.
pub proof fn lemma_join_lines_push(ls: Seq<Seq<char>>, x: Seq<char>)
    ensures
        join_lines(ls.push(x)) == if ls.len() == 0 {
            x
        } else {
            join_lines(ls) + seq!['\n'] + x
        },
    decreases ls.len(),
{
    if ls.len() == 0 {
        assert(ls.push(x)[0] == x);
    } else {
        assert(ls.push(x).drop_first() =~= ls.drop_first().push(x));
        lemma_join_lines_push(ls.drop_first(), x);
        if ls.len() == 1 {
            assert(ls.push(x)[0] == ls[0]);
        } else {
            assert(ls.push(x)[0] == ls[0]);
        }
    }
}

// ---------------------------------------------------------------------------
// Trimming, executable
// ---------------------------------------------------------------------------

/// ASCII whitespace test.
pub fn ws_char(c: char) -> (r: bool)
    ensures
        r == is_ws(c),
{
    c == ' ' || c == '\t' || c == '\n' || c == '\r' || c == '\u{b}' || c == '\u{c}'
}

pub fn trim_start_chars(v: &Vec<char>) -> (r: Vec<char>)
    ensures
        r@ == trim_start_spec(v@),
{
    let mut i: usize = 0;
    while i < v.len() && ws_char(v[i])
        invariant
            i <= v@.len(),
            forall|k: int| 0 <= k < i ==> is_ws(#[trigger] v@[k]),
        decreases v@.len() - i,
    {
        i += 1;
    }
    proof {
        lemma_ws_prefix_at(v@, i as int);
    }
    let r = subvec(v, i, v.len());
    proof {
        assert(v@.subrange(i as int, v@.len() as int) =~= v@.skip(i as int));
    }
    r
}

pub fn trim_end_chars(v: &Vec<char>) -> (r: Vec<char>)
    ensures
        r@ == trim_end_spec(v@),
{
    let mut j: usize = v.len();
    while j > 0 && ws_char(v[j - 1])
        invariant
            j <= v@.len(),
            forall|k: int| j <= k < v@.len() ==> is_ws(#[trigger] v@[k]),
        decreases j,
    {
        j -= 1;
    }
    proof {
        lemma_ws_suffix_at(v@, j as int);
    }
    let r = subvec(v, 0, j);
    proof {
        assert(v@.subrange(0, j as int) =~= v@.take(j as int));
    }
    r
}

pub fn trim_chars(v: &Vec<char>) -> (r: Vec<char>)
    ensures
        r@ == trim_spec(v@),
{
    let e = trim_end_chars(v);
    trim_start_chars(&e)
}

// ---------------------------------------------------------------------------
// Lines, executable
// ---------------------------------------------------------------------------

pub fn split_lines(v: &Vec<char>) -> (r: Vec<Vec<char>>)
    ensures
        r.deep_view() == lines_of(v@),
{
    let nl: Vec<char> = vec!['\n'];
    proof {
        assert(nl@ =~= seq!['\n']);
    }
    let mut r: Vec<Vec<char>> = Vec::new();
    let mut pos: usize = 0;
    proof {
        assert(v@.skip(0) =~= v@);
        assert(r.deep_view() + lines_of(v@) =~~= lines_of(v@));
    }
    while pos < v.len()
        invariant
            pos <= v@.len(),
            nl@ == seq!['\n'],
            lines_of(v@) == r.deep_view() + lines_of(v@.skip(pos as int)),
        decreases v@.len() - pos,
    {
        let ghost rest = v@.skip(pos as int);
        match find_sub(v, &nl, pos) {
            Option::Some(j) => {
                proof {
                    lemma_first_match_shift(v@, nl@, pos as int, pos as int);
                    assert(first_match(rest, seq!['\n'], 0) == Option::Some(j - pos));
                    lemma_first_match_bounds(rest, seq!['\n'], 0);
                }
                let mut seg = subvec(v, pos, j);
                proof {
                    assert(seg@ =~= rest.take(j - pos));
                }
                if seg.len() > 0 && seg[seg.len() - 1] == '\r' {
                    seg.pop();
                }
                proof {
                    assert(seg@ == strip_cr(rest.take(j - pos)));
                    assert(rest.skip(j - pos + 1) =~= v@.skip(j + 1));
                    assert(lines_of(rest) == seq![strip_cr(rest.take(j - pos))] + lines_of(
                        v@.skip(j + 1),
                    ));
                }
                let ghost pre = r.deep_view();
                let ghost segv = seg@;
                r.push(seg);
                proof {
                    assert(r.deep_view() =~~= pre.push(segv));
                    assert(pre + lines_of(rest) =~~= r.deep_view() + lines_of(v@.skip(j + 1)));
                }
                pos = j + 1;
            }
            Option::None => {
                proof {
                    lemma_first_match_shift(v@, nl@, pos as int, pos as int);
                    assert(first_match(rest, seq!['\n'], 0) is None);
                    assert(lines_of(rest) == seq![rest]);
                }
                let seg = subvec(v, pos, v.len());
                let ghost pre = r.deep_view();
                let ghost segv = seg@;
                proof {
                    assert(segv =~= rest);
                }
                r.push(seg);
                proof {
                    assert(r.deep_view() =~~= pre.push(segv));
                    assert(v@.skip(v@.len() as int) =~= Seq::<char>::empty());
                    assert(pre + lines_of(rest) =~~= r.deep_view() + lines_of(
                        v@.skip(v@.len() as int),
                    ));
                }
                pos = v.len();
            }
        }
    }
    proof {
        assert(v@.skip(pos as int) =~= Seq::<char>::empty());
        assert(lines_of(Seq::<char>::empty()) == Seq::<Seq<char>>::empty());
        assert(r.deep_view() + Seq::<Seq<char>>::empty() =~~= r.deep_view());
    }
    r
}

/// Joins segments with single line breaks.
pub fn join_with_newlines(ls: &Vec<Vec<char>>) -> (r: Vec<char>)
    ensures
        r@ == join_lines(ls.deep_view()),
{
    let mut r: Vec<char> = Vec::new();
    let mut i: usize = 0;
    while i < ls.len()
        invariant
            i <= ls@.len(),
            r@ == join_lines(ls.deep_view().take(i as int)),
        decreases ls@.len() - i,
    {
        if i > 0 {
            r.push('\n');
        }
        push_all(&mut r, &ls[i]);
        proof {
            let pre = ls.deep_view().take(i as int);
            assert(ls.deep_view().take(i + 1) =~= pre.push(ls@[i as int].deep_view()));
            lemma_join_lines_push(pre, ls@[i as int].deep_view());
            if i > 0 {
                assert(join_lines(pre) + seq!['\n'] + ls@[i as int].deep_view() =~= join_lines(
                    pre,
                ) + (seq!['\n'] + ls@[i as int].deep_view()));
            }
        }
        i += 1;
    }
    proof {
        assert(ls.deep_view().take(ls@.len() as int) =~= ls.deep_view());
    }
    r
}

// ---------------------------------------------------------------------------
// Replacement, executable
// ---------------------------------------------------------------------------

pub fn replace_all(v: &Vec<char>, pat: &Vec<char>, rep: &Vec<char>) -> (r: Vec<char>)
    ensures
        r@ == replace_spec(v@, pat@, rep@),
{
    if pat.len() == 0 {
        let r = subvec(v, 0, v.len());
        proof {
            assert(v@.subrange(0, v@.len() as int) =~= v@);
        }
        return r;
    }
    let n: usize = v.len();
    let mut out: Vec<char> = Vec::new();
    let mut pos: usize = 0;
    proof {
        assert(v@.skip(0) =~= v@);
        assert(out@ + replace_spec(v@, pat@, rep@) =~= replace_spec(v@, pat@, rep@));
    }
    loop
        invariant
            pos <= v@.len(),
            n == v@.len(),
            pat@.len() > 0,
            replace_spec(v@, pat@, rep@) == out@ + replace_spec(v@.skip(pos as int), pat@, rep@),
        ensures
            out@ == replace_spec(v@, pat@, rep@),
        decreases v@.len() - pos,
    {
        let ghost rest = v@.skip(pos as int);
        match find_sub(v, pat, pos) {
            Option::Some(i) => {
                proof {
                    lemma_first_match_shift(v@, pat@, pos as int, pos as int);
                    assert(first_match(rest, pat@, 0) == Option::Some(i - pos));
                    lemma_first_match_bounds(rest, pat@, 0);
                }
                let seg = subvec(v, pos, i);
                push_all(&mut out, &seg);
                push_all(&mut out, rep);
                proof {
                    assert(seg@ =~= rest.take(i - pos));
                    assert(rest.skip(i - pos + pat@.len() as int) =~= v@.skip(
                        i + pat@.len() as int,
                    ));
                    assert(replace_spec(rest, pat@, rep@) == rest.take(i - pos) + rep@
                        + replace_spec(v@.skip(i + pat@.len() as int), pat@, rep@));
                }
                pos = i + pat.len();
            }
            Option::None => {
                proof {
                    lemma_first_match_shift(v@, pat@, pos as int, pos as int);
                    assert(first_match(rest, pat@, 0) is None);
                    assert(replace_spec(rest, pat@, rep@) == rest);
                }
                let seg = subvec(v, pos, v.len());
                push_all(&mut out, &seg);
                pos = v.len();
                proof {
                    assert(seg@ =~= rest);
                    assert(v@.skip(v@.len() as int) =~= Seq::<char>::empty());
                    assert(replace_spec(Seq::<char>::empty(), pat@, rep@)
                        == Seq::<char>::empty());
                    assert(out@ + Seq::<char>::empty() =~= out@);
                }
                break;
            }
        }
    }
    out
}

// ---------------------------------------------------------------------------
// ASCII case, executable
// ---------------------------------------------------------------------------

/// Relies on char::to_ascii_lowercase: maps 'A'..='Z' to 'a'..='z' and
/// leaves every other character unchanged.
#[verifier::external_body]
pub fn lower_char_exec(c: char) -> (r: char)
    ensures
        r == lower_char(c),
{
    c.to_ascii_lowercase()
}

pub fn lower_chars(v: &Vec<char>) -> (r: Vec<char>)
    ensures
        r@ == lower_spec(v@),
{
    let mut r: Vec<char> = Vec::new();
    let mut i: usize = 0;
    while i < v.len()
        invariant
            i <= v@.len(),
            r@ == lower_spec(v@.take(i as int)),
        decreases v@.len() - i,
    {
        r.push(lower_char_exec(v[i]));
        proof {
            assert(lower_spec(v@.take(i + 1)) =~= lower_spec(v@.take(i as int)).push(
                lower_char(v@[i as int]),
            ));
        }
        i += 1;
    }
    proof {
        assert(v@.take(v@.len() as int) =~= v@);
    }
    r
}

pub fn eq_ignore_ascii_case_chars(a: &Vec<char>, b: &Vec<char>) -> (r: bool)
    ensures
        r == (lower_spec(a@) == lower_spec(b@)),
{
    let la = lower_chars(a);
    let lb = lower_chars(b);
    chars_eq(&la, &lb)
}

// ---------------------------------------------------------------------------
// UTF-8 length, executable
// ---------------------------------------------------------------------------

pub fn char_width(c: char) -> (r: usize)
    ensures
        r == char_utf8_width(c),
{
    if c <= '\u{7f}' {
        1
    } else if c <= '\u{7ff}' {
        2
    } else if c <= '\u{ffff}' {
        3
    } else {
        4
    }
}

/// Length in UTF-8 bytes of `v[from..]`, measured from the back so that a
/// running total stays within `usize` bounds.
pub fn utf8_len_chars(v: &Vec<char>) -> (r: usize)
    requires
        4 * v@.len() <= usize::MAX,
    ensures
        r == utf8_len(v@),
{
    let mut total: usize = 0;
    let mut i: usize = 0;
    while i < v.len()
        invariant
            i <= v@.len(),
            4 * v@.len() <= usize::MAX,
            total == utf8_len(v@.take(i as int)),
            total <= 4 * i,
        decreases v@.len() - i,
    {
        let w = char_width(v[i]);
        proof {
            lemma_utf8_len_push(v@.take(i as int), v@[i as int]);
            assert(v@.take(i as int).push(v@[i as int]) =~= v@.take(i + 1));
        }
        total += w;
        i += 1;
    }
    proof {
        assert(v@.take(v@.len() as int) =~= v@);
    }
    total
}

// ---------------------------------------------------------------------------
// Decimal rendering, executable
// ---------------------------------------------------------------------------

pub fn dec_digit_exec(d: usize) -> (r: char)
    requires
        d < 10,
    ensures
        r == dec_digit(d as nat),
{
    if d == 0 {
        '0'
    } else if d == 1 {
        '1'
    } else if d == 2 {
        '2'
    } else if d == 3 {
        '3'
    } else if d == 4 {
        '4'
    } else if d == 5 {
        '5'
    } else if d == 6 {
        '6'
    } else if d == 7 {
        '7'
    } else if d == 8 {
        '8'
    } else {
        '9'
    }
}

pub fn dec_chars(n: usize) -> (r: Vec<char>)
    ensures
        r@ == dec_spec(n as nat),
{
    let mut rev: Vec<char> = Vec::new();
    let mut m: usize = n;
    loop
        invariant
            dec_spec(n as nat) == dec_spec(m as nat) + rev@.reverse(),
        ensures
            m < 10,
            dec_spec(n as nat) == dec_spec(m as nat) + rev@.reverse(),
        decreases m,
    {
        if m < 10 {
            break;
        }
        let d = m % 10;
        let c = dec_digit_exec(d);
        proof {
            assert(dec_spec(m as nat) == dec_spec((m / 10) as nat).push(
                dec_digit((m % 10) as nat),
            ));
            assert(rev@.push(dec_digit((m % 10) as nat)).reverse() =~= seq![dec_digit(
                (m % 10) as nat,
            )] + rev@.reverse());
            assert(dec_spec((m / 10) as nat) + (seq![dec_digit((m % 10) as nat)]
                + rev@.reverse()) =~= dec_spec(m as nat) + rev@.reverse());
        }
        rev.push(c);
        m = m / 10;
    }
    let mut r: Vec<char> = Vec::new();
    let c0 = dec_digit_exec(m);
    proof {
        assert(dec_spec(m as nat) =~= seq![dec_digit(m as nat)]);
    }
    r.push(c0);
    let mut i: usize = rev.len();
    while i > 0
        invariant
            i <= rev@.len(),
            r@ == seq![dec_digit(m as nat)] + rev@.reverse().take(rev@.len() - i),
        decreases i,
    {
        i -= 1;
        r.push(rev[i]);
        proof {
            assert(rev@.reverse()[rev@.len() - i - 1] == rev@[i as int]);
            assert(rev@.reverse().take(rev@.len() - i) =~= rev@.reverse().take(
                rev@.len() - i - 1,
            ).push(rev@[i as int]));
        }
    }
    proof {
        assert(rev@.reverse().take(rev@.len() as int) =~= rev@.reverse());
        assert(seq![dec_digit(m as nat)] + rev@.reverse() =~= dec_spec(m as nat)
            + rev@.reverse());
    }
    r
}


pub proof fn lemma_utf8_len_take_le(s: Seq<char>, i: int)
    requires
        0 <= i <= s.len(),
    ensures
        utf8_len(s.take(i)) <= utf8_len(s),
{
    assert(s =~= s.take(i) + s.skip(i));
    lemma_utf8_len_concat(s.take(i), s.skip(i));
}

/// `n` cut off just above `cap`: comparisons against `cap` survive, exact
/// values only below it.
pub open spec fn capped(n: nat, cap: nat) -> nat {
    if n > cap {
        cap + 1
    } else {
        n
    }
}

/// Length in UTF-8 bytes of `v`, cut off just above `cap`, so that the
/// running total never overflows.
pub fn utf8_len_upto(v: &Vec<char>, cap: usize) -> (r: usize)
    requires
        cap <= usize::MAX - 4,
    ensures
        r == capped(utf8_len(v@), cap as nat),
{
    let mut total: usize = 0;
    let mut i: usize = 0;
    while i < v.len()
        invariant
            i <= v@.len(),
            cap <= usize::MAX - 4,
            total == utf8_len(v@.take(i as int)),
            total <= cap,
        decreases v@.len() - i,
    {
        let w = char_width(v[i]);
        proof {
            lemma_utf8_len_push(v@.take(i as int), v@[i as int]);
            assert(v@.take(i as int).push(v@[i as int]) =~= v@.take(i + 1));
        }
        if total + w > cap {
            proof {
                lemma_utf8_len_take_le(v@, i + 1);
            }
            return cap + 1;
        }
        total += w;
        i += 1;
    }
    proof {
        assert(v@.take(v@.len() as int) =~= v@);
    }
    total
}

/// Does `a + b + c` exceed `limit`?  Computed without overflow.
pub fn sum3_exceeds(a: usize, b: usize, c: usize, limit: usize) -> (r: bool)
    ensures
        r == (a + b + c > limit),
{
    if a > limit {
        true
    } else if b > limit - a {
        true
    } else {
        c > limit - a - b
    }
}


// ---------------------------------------------------------------------------
// Rightmost match
// ---------------------------------------------------------------------------

/// Position of the rightmost occurrence of `p` in `s`.
pub open spec fn last_match(s: Seq<char>, p: Seq<char>) -> Option<int>
    decreases s.len(),
    via last_match_dec
{
    if p.len() > s.len() {
        None
    } else if match_at(s, p, s.len() - p.len()) {
        Some(s.len() - p.len())
    } else {
        last_match(s.drop_last(), p)
    }
}

#[via_fn]
proof fn last_match_dec(s: Seq<char>, p: Seq<char>) {
    if p.len() <= s.len() && !match_at(s, p, s.len() - p.len()) && s.len() == 0 {
        assert(s.subrange(0, 0) =~= p);
    }
}

pub proof fn lemma_last_match_bounds(s: Seq<char>, p: Seq<char>)
    ensures
        match last_match(s, p) {
            Option::Some(i) => match_at(s, p, i),
            Option::None => true,
        },
    decreases s.len(),
{
    if p.len() > s.len() {
    } else if match_at(s, p, s.len() - p.len()) {
    } else {
        if s.len() == 0 {
            assert(s.subrange(0, 0) =~= p);
            assert(false);
        }
        lemma_last_match_bounds(s.drop_last(), p);
        if let Option::Some(i) = last_match(s.drop_last(), p) {
            assert(s.drop_last().subrange(i, i + p.len() as int) =~= s.subrange(
                i,
                i + p.len() as int,
            ));
        }
    }
}

/// Rightmost occurrence of `p` in `v`.
pub fn rfind_sub(v: &Vec<char>, p: &Vec<char>) -> (r: Option<usize>)
    ensures
        match r {
            Option::Some(i) => last_match(v@, p@) == Option::Some(i as int) && match_at(
                v@,
                p@,
                i as int,
            ),
            Option::None => last_match(v@, p@) is None,
        },
{
    if p.len() > v.len() {
        return None;
    }
    let mut i: usize = v.len() - p.len();
    let mut found: bool = false;
    proof {
        assert(v@.take(v@.len() as int) =~= v@);
    }
    loop
        invariant_except_break
            !found,
        invariant
            p@.len() <= v@.len(),
            i + p@.len() <= v@.len(),
            last_match(v@, p@) == last_match(v@.take(i + p@.len() as int), p@),
        ensures
            found ==> last_match(v@, p@) == Option::Some(i as int) && match_at(v@, p@, i as int),
            !found ==> last_match(v@, p@) is None,
        decreases i,
    {
        let ghost pre = v@.take(i + p@.len() as int);
        proof {
            assert(pre.len() == i + p@.len());
            assert(pre.subrange(i as int, i + p@.len() as int) =~= v@.subrange(
                i as int,
                i + p@.len() as int,
            ));
        }
        if matches_at(v, p, i) {
            found = true;
            proof {
                assert(match_at(pre, p@, i as int));
                assert(last_match(pre, p@) == Option::Some(i as int));
            }
            break;
        }
        proof {
            if p@.len() == 0 {
                assert(v@.subrange(i as int, i as int) =~= p@);
                assert(false);
            }
            assert(!match_at(pre, p@, i as int));
            assert(pre.drop_last() =~= v@.take(i + p@.len() - 1));
            assert(last_match(pre, p@) == last_match(v@.take(i + p@.len() - 1), p@));
        }
        if i == 0 {
            proof {
                let shorter = v@.take(p@.len() - 1);
                assert(v@.take(i + p@.len() - 1) =~= shorter);
                assert(last_match(shorter, p@) is None);
            }
            break;
        }
        i -= 1;
    }
    if found {
        Some(i)
    } else {
        None
    }
}

// ---------------------------------------------------------------------------
// Repetition
// ---------------------------------------------------------------------------

/// `n` spaces.
pub open spec fn spaces(n: int) -> Seq<char>
    decreases n
{
    if n <= 0 {
        Seq::empty()
    } else {
        spaces(n - 1).push(' ')
    }
}

// ---------------------------------------------------------------------------
// Leading-character runs
// ---------------------------------------------------------------------------

/// Number of leading occurrences of the character `c`.
pub open spec fn char_prefix_len(s: Seq<char>, c: char) -> nat
    decreases s.len()
{
    if s.len() == 0 || s[0] != c {
        0
    } else {
        1 + char_prefix_len(s.skip(1), c)
    }
}

proof fn lemma_char_prefix_at(s: Seq<char>, c: char, i: int)
    requires
        0 <= i <= s.len(),
        forall|k: int| 0 <= k < i ==> s[k] == c,
        i == s.len() || s[i] != c,
    ensures
        char_prefix_len(s, c) == i,
    decreases s.len(),
{
    if s.len() == 0 {
    } else if i == 0 {
    } else {
        assert(s[0] == c);
        assert forall|k: int| 0 <= k < i - 1 implies s.skip(1)[k] == c by {
            assert(s.skip(1)[k] == s[k + 1]);
        }
        lemma_char_prefix_at(s.skip(1), c, i - 1);
    }
}

/// `s` without its leading run of `c`.
pub open spec fn strip_char_prefix(s: Seq<char>, c: char) -> Seq<char> {
    s.skip(char_prefix_len(s, c) as int)
}

/// Removes the leading run of `c` from `v`.
pub fn strip_char_prefix_chars(v: &Vec<char>, c: char) -> (r: Vec<char>)
    ensures
        r@ == strip_char_prefix(v@, c),
{
    let mut i: usize = 0;
    while i < v.len() && v[i] == c
        invariant
            i <= v@.len(),
            forall|k: int| 0 <= k < i ==> v@[k] == c,
        decreases v@.len() - i,
    {
        i += 1;
    }
    proof {
        lemma_char_prefix_at(v@, c, i as int);
    }
    let r = subvec(v, i, v.len());
    proof {
        assert(v@.subrange(i as int, v@.len() as int) =~= v@.skip(i as int));
    }
    r
}

pub proof fn lemma_utf8_len_skip_le(s: Seq<char>, i: int)
    requires
        0 <= i <= s.len(),
    ensures
        utf8_len(s.skip(i)) <= utf8_len(s),
{
    assert(s =~= s.take(i) + s.skip(i));
    lemma_utf8_len_concat(s.take(i), s.skip(i));
}

// ---------------------------------------------------------------------------
// Splitting on one character
// ---------------------------------------------------------------------------

/// The segments of `s` split at every occurrence of `c`, empty segments
/// kept.
pub open spec fn split_char_spec(s: Seq<char>, c: char) -> Seq<Seq<char>>
    decreases s.len(),
    via split_char_dec
{
    match first_match(s, seq![c], 0) {
        Option::Some(i) => seq![s.take(i)] + split_char_spec(s.skip(i + 1), c),
        Option::None => seq![s],
    }
}

#[via_fn]
proof fn split_char_dec(s: Seq<char>, c: char) {
    lemma_first_match_bounds(s, seq![c], 0);
}

/// Splits `v` at every occurrence of `c`, empty segments kept.
pub fn split_char(v: &Vec<char>, c: char) -> (r: Vec<Vec<char>>)
    ensures
        r.deep_view() == split_char_spec(v@, c),
{
    let pat: Vec<char> = vec![c];
    proof {
        assert(pat@ =~= seq![c]);
    }
    let n = v.len();
    let mut r: Vec<Vec<char>> = Vec::new();
    let mut pos: usize = 0;
    let mut finished: bool = false;
    proof {
        assert(v@.skip(0) =~= v@);
        assert(r.deep_view() + split_char_spec(v@, c) =~~= split_char_spec(v@, c));
    }
    loop
        invariant_except_break
            !finished,
        invariant
            pos <= v@.len(),
            n == v@.len(),
            pat@ == seq![c],
            split_char_spec(v@, c) == r.deep_view() + split_char_spec(v@.skip(pos as int), c),
        ensures
            finished,
            split_char_spec(v@, c) == r.deep_view() + split_char_spec(v@.skip(pos as int), c),
            first_match(v@.skip(pos as int), seq![c], 0) is None,
        decreases v@.len() + 1 - pos,
    {
        let ghost rest = v@.skip(pos as int);
        match find_sub(v, &pat, pos) {
            Option::Some(j) => {
                proof {
                    lemma_first_match_shift(v@, pat@, pos as int, pos as int);
                    assert(first_match(rest, seq![c], 0) == Option::Some(j - pos));
                    lemma_first_match_bounds(rest, seq![c], 0);
                }
                let seg = subvec(v, pos, j);
                let ghost pre = r.deep_view();
                let ghost segv = seg@;
                proof {
                    assert(segv =~= rest.take(j - pos));
                    assert(rest.skip(j - pos + 1) =~= v@.skip(j + 1));
                }
                r.push(seg);
                proof {
                    assert(r.deep_view() =~~= pre.push(segv));
                    assert(pre + split_char_spec(rest, c) =~~= r.deep_view() + split_char_spec(
                        v@.skip(j + 1),
                        c,
                    ));
                    assert(j < v@.len());
                }
                pos = j + 1;
            }
            Option::None => {
                proof {
                    lemma_first_match_shift(v@, pat@, pos as int, pos as int);
                    assert(first_match(rest, seq![c], 0) is None);
                }
                finished = true;
                break;
            }
        }
    }
    let seg = subvec(v, pos, v.len());
    let ghost pre = r.deep_view();
    let ghost segv = seg@;
    proof {
        assert(segv =~= v@.skip(pos as int));
        assert(split_char_spec(v@.skip(pos as int), c) == seq![segv]);
    }
    r.push(seg);
    proof {
        assert(r.deep_view() =~~= pre.push(segv));
        assert(pre + seq![segv] =~~= r.deep_view());
    }
    r
}


// ---------------------------------------------------------------------------
// Decimal length and ASCII byte-length facts
// ---------------------------------------------------------------------------

pub open spec fn pow10(k: nat) -> nat
    decreases k
{
    if k == 0 {
        1
    } else {
        10 * pow10((k - 1) as nat)
    }
}

proof fn lemma_dec_len_le(n: nat, k: nat)
    requires
        k >= 1,
        n < pow10(k),
    ensures
        dec_spec(n).len() <= k,
    decreases n,
{
    if n < 10 {
    } else {
        if k == 1 {
            assert(pow10(0) == 1);
            assert(pow10(1) == 10);
            assert(false);
        }
        assert(pow10(k) == 10 * pow10((k - 1) as nat));
        lemma_dec_len_le(n / 10, (k - 1) as nat);
    }
}

/// Any index that fits a machine word prints in at most twenty digits.
pub proof fn lemma_dec_len_word(n: nat)
    requires
        n <= usize::MAX,
    ensures
        dec_spec(n).len() <= 20,
{
    assert(pow10(0) == 1);
    assert(pow10(1) == 10);
    assert(pow10(2) == 100);
    assert(pow10(3) == 1000);
    assert(pow10(4) == 10000);
    assert(pow10(5) == 100000);
    assert(pow10(6) == 1000000);
    assert(pow10(7) == 10000000);
    assert(pow10(8) == 100000000);
    assert(pow10(9) == 1000000000);
    assert(pow10(10) == 10000000000);
    assert(pow10(11) == 100000000000);
    assert(pow10(12) == 1000000000000);
    assert(pow10(13) == 10000000000000);
    assert(pow10(14) == 100000000000000);
    assert(pow10(15) == 1000000000000000);
    assert(pow10(16) == 10000000000000000);
    assert(pow10(17) == 100000000000000000);
    assert(pow10(18) == 1000000000000000000);
    assert(pow10(19) == 10000000000000000000);
    assert(pow10(20) == 100000000000000000000);
    assert((usize::MAX as nat) < pow10(20));
    lemma_dec_len_le(n, 20);
}

/// A sequence of ASCII characters occupies one byte per character.
pub proof fn lemma_utf8_len_ascii(s: Seq<char>)
    requires
        forall|i: int| 0 <= i < s.len() ==> (#[trigger] s[i] as u32) < 0x80,
    ensures
        utf8_len(s) == s.len(),
    decreases s.len(),
{
    if s.len() > 0 {
        assert forall|i: int| 0 <= i < s.skip(1).len() implies (#[trigger] s.skip(1)[i] as u32)
            < 0x80 by {
            assert(s.skip(1)[i] == s[i + 1]);
        }
        lemma_utf8_len_ascii(s.skip(1));
    }
}

/// Decimal renderings are ASCII.
pub proof fn lemma_dec_ascii(n: nat)
    ensures
        utf8_len(dec_spec(n)) == dec_spec(n).len(),
    decreases n,
{
    if n < 10 {
        assert(dec_spec(n)[0] == dec_digit(n));
        lemma_utf8_len_ascii(dec_spec(n));
    } else {
        lemma_dec_ascii(n / 10);
        lemma_utf8_len_push(dec_spec(n / 10), dec_digit(n % 10));
    }
}

/// Comparing a capped sum against the cap agrees with the exact sum.
pub proof fn lemma_capped_sum(a: nat, b: nat, cap: nat)
    ensures
        (capped(a, cap) + capped(b, cap) > cap) == (a + b > cap),
        a + b <= cap ==> capped(a, cap) + capped(b, cap) == a + b,
{
}

} // verus!
