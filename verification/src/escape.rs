//! Escaping for the target markup grammar.
//!
//! Every reserved character is prefixed with the escape marker `'\'`, and
//! the marker itself is escaped with it, so double-escaping cannot occur.
//! URLs get a lighter treatment: only the characters that would terminate
//! a link target — the parentheses and the escape marker — are escaped.

use vstd::prelude::*;

use crate::text::str_chars;
use crate::text::chars_to_string;

verus! {

/// The reserved characters of the target grammar: each must be escaped to
/// appear literally in ordinary text.
pub open spec fn is_reserved(c: char) -> bool {
    c == '_' || c == '*' || c == '[' || c == ']' || c == '(' || c == ')' || c == '~' || c == '`'
        || c == '>' || c == '#' || c == '+' || c == '-' || c == '=' || c == '|' || c == '{'
        || c == '}' || c == '.' || c == '!'
}

/// The reserved characters that may start a structural line: when a cut
/// leaves one of these at the start of a chunk it must carry an escape.
pub open spec fn is_line_reserved(c: char) -> bool {
    c == '-' || c == '>' || c == '#' || c == '+' || c == '=' || c == '{' || c == '}' || c == '.'
        || c == '!'
}

pub open spec fn escape_char(c: char) -> Seq<char> {
    if c == '\\' || is_reserved(c) {
        seq!['\\', c]
    } else {
        seq![c]
    }
}

/// Text with the escape marker and every reserved character prefixed by
/// the escape marker.  Handling the marker in the same single pass means
/// double-escaping cannot occur; callers escape each fragment exactly
/// once, and the round-trip law below therefore speaks of text without
/// pre-existing markers.
pub open spec fn escape_spec(s: Seq<char>) -> Seq<char>
    decreases s.len()
{
    if s.len() == 0 {
        Seq::empty()
    } else {
        escape_char(s[0]) + escape_spec(s.skip(1))
    }
}

pub open spec fn url_escape_char(c: char) -> Seq<char> {
    if c == '(' || c == ')' || c == '\\' {
        seq!['\\', c]
    } else {
        seq![c]
    }
}

/// A URL with only the link-terminating characters — the parentheses and
/// the escape marker — escaped.
pub open spec fn url_escape_spec(s: Seq<char>) -> Seq<char>
    decreases s.len()
{
    if s.len() == 0 {
        Seq::empty()
    } else {
        url_escape_char(s[0]) + url_escape_spec(s.skip(1))
    }
}

/// The same text with every escape marker removed.
pub open spec fn strip_escapes_spec(s: Seq<char>) -> Seq<char>
    decreases s.len()
{
    if s.len() == 0 {
        Seq::empty()
    } else if s[0] == '\\' {
        strip_escapes_spec(s.skip(1))
    } else {
        seq![s[0]] + strip_escapes_spec(s.skip(1))
    }
}

pub proof fn lemma_escape_push(s: Seq<char>, c: char)
    ensures
        escape_spec(s.push(c)) == escape_spec(s) + escape_char(c),
    decreases s.len(),
{
    if s.len() == 0 {
        assert(s.push(c)[0] == c);
        assert(s.push(c).skip(1) =~= Seq::<char>::empty());
        assert(escape_spec(s) + escape_char(c) =~= escape_char(c));
        assert(escape_char(c) + escape_spec(Seq::<char>::empty()) =~= escape_char(c));
    } else {
        assert(s.push(c)[0] == s[0]);
        assert(s.push(c).skip(1) =~= s.skip(1).push(c));
        lemma_escape_push(s.skip(1), c);
        assert(escape_char(s[0]) + (escape_spec(s.skip(1)) + escape_char(c)) =~= (escape_char(
            s[0],
        ) + escape_spec(s.skip(1))) + escape_char(c));
    }
}

pub proof fn lemma_url_escape_push(s: Seq<char>, c: char)
    ensures
        url_escape_spec(s.push(c)) == url_escape_spec(s) + url_escape_char(c),
    decreases s.len(),
{
    if s.len() == 0 {
        assert(s.push(c)[0] == c);
        assert(s.push(c).skip(1) =~= Seq::<char>::empty());
        assert(url_escape_spec(s) + url_escape_char(c) =~= url_escape_char(c));
        assert(url_escape_char(c) + url_escape_spec(Seq::<char>::empty()) =~= url_escape_char(
            c,
        ));
    } else {
        assert(s.push(c)[0] == s[0]);
        assert(s.push(c).skip(1) =~= s.skip(1).push(c));
        lemma_url_escape_push(s.skip(1), c);
        assert(url_escape_char(s[0]) + (url_escape_spec(s.skip(1)) + url_escape_char(c)) =~= (
        url_escape_char(s[0]) + url_escape_spec(s.skip(1))) + url_escape_char(c));
    }
}

proof fn lemma_strip_concat(a: Seq<char>, b: Seq<char>)
    ensures
        strip_escapes_spec(a + b) == strip_escapes_spec(a) + strip_escapes_spec(b),
    decreases a.len(),
{
    if a.len() == 0 {
        assert(a + b =~= b);
        assert(strip_escapes_spec(a) + strip_escapes_spec(b) =~= strip_escapes_spec(b));
    } else {
        assert((a + b)[0] == a[0]);
        assert((a + b).skip(1) =~= a.skip(1) + b);
        lemma_strip_concat(a.skip(1), b);
        if a[0] == '\\' {
        } else {
            assert(seq![a[0]] + (strip_escapes_spec(a.skip(1)) + strip_escapes_spec(b)) =~= (
            seq![a[0]] + strip_escapes_spec(a.skip(1))) + strip_escapes_spec(b));
        }
    }
}

/// Law: escaping and then removing all escape markers reproduces the
/// original text, for text that contains no escape marker of its own.
pub proof fn lemma_escape_round_trip(s: Seq<char>)
    requires
        forall|i: int| 0 <= i < s.len() ==> s[i] != '\\',
    ensures
        strip_escapes_spec(escape_spec(s)) == s,
    decreases s.len(),
{
    if s.len() == 0 {
    } else {
        lemma_strip_concat(escape_char(s[0]), escape_spec(s.skip(1)));
        assert forall|i: int| 0 <= i < s.skip(1).len() implies s.skip(1)[i] != '\\' by {
            assert(s.skip(1)[i] == s[i + 1]);
        }
        lemma_escape_round_trip(s.skip(1));
        let c = s[0];
        let single = seq![c];
        assert(c != '\\');
        assert(single[0] == c);
        assert(single.skip(1) =~= Seq::<char>::empty());
        assert(strip_escapes_spec(Seq::<char>::empty()) == Seq::<char>::empty());
        assert(strip_escapes_spec(single) =~= single);
        if is_reserved(c) {
            assert(escape_char(c)[0] == '\\');
            assert(escape_char(c).skip(1) =~= single);
            assert(strip_escapes_spec(escape_char(c)) == strip_escapes_spec(single));
        } else {
            assert(escape_char(c) == single);
        }
        assert(single + strip_escapes_spec(escape_spec(s.skip(1))) =~= s);
    }
}

/// Reserved-character test.
pub fn reserved_char(c: char) -> (r: bool)
    ensures
        r == is_reserved(c),
{
    c == '_' || c == '*' || c == '[' || c == ']' || c == '(' || c == ')' || c == '~' || c == '`'
        || c == '>' || c == '#' || c == '+' || c == '-' || c == '=' || c == '|' || c == '{'
        || c == '}' || c == '.' || c == '!'
}

/// Test for reserved characters that are structural at the start of a line.
pub fn line_reserved_char(c: char) -> (r: bool)
    ensures
        r == is_line_reserved(c),
{
    c == '-' || c == '>' || c == '#' || c == '+' || c == '=' || c == '{' || c == '}' || c == '.'
        || c == '!'
}

/// Escapes the escape marker and every reserved character of `v`.
pub fn escape_chars(v: &Vec<char>) -> (r: Vec<char>)
    ensures
        r@ == escape_spec(v@),
{
    let mut r: Vec<char> = Vec::new();
    let mut i: usize = 0;
    while i < v.len()
        invariant
            i <= v@.len(),
            r@ == escape_spec(v@.take(i as int)),
        decreases v@.len() - i,
    {
        let c = v[i];
        if c == '\\' || reserved_char(c) {
            r.push('\\');
        }
        r.push(c);
        proof {
            assert(v@.take(i + 1) =~= v@.take(i as int).push(v@[i as int]));
            lemma_escape_push(v@.take(i as int), v@[i as int]);
        }
        i += 1;
    }
    proof {
        assert(v@.take(v@.len() as int) =~= v@);
    }
    r
}

/// Escapes only the link-terminating characters of `v`: the parentheses
/// and the escape marker.
pub fn url_escape_chars(v: &Vec<char>) -> (r: Vec<char>)
    ensures
        r@ == url_escape_spec(v@),
{
    let mut r: Vec<char> = Vec::new();
    let mut i: usize = 0;
    while i < v.len()
        invariant
            i <= v@.len(),
            r@ == url_escape_spec(v@.take(i as int)),
        decreases v@.len() - i,
    {
        let c = v[i];
        if c == '(' || c == ')' || c == '\\' {
            r.push('\\');
        }
        r.push(c);
        proof {
            assert(v@.take(i + 1) =~= v@.take(i as int).push(v@[i as int]));
            lemma_url_escape_push(v@.take(i as int), v@[i as int]);
        }
        i += 1;
    }
    proof {
        assert(v@.take(v@.len() as int) =~= v@);
    }
    r
}

/// Escapes the escape marker and every reserved character of `text`, so
/// that the result renders literally in the target grammar.
pub fn escape_markdown(text: &str) -> (r: String)
    ensures
        r@ == escape_spec(text@),
{
    let v = str_chars(text);
    let e = escape_chars(&v);
    chars_to_string(&e)
}

/// Escapes the characters of `url` that would terminate a link target —
/// the parentheses and the escape marker; structurally neutral characters
/// such as `#`, `+` and `.` are left untouched.
pub fn escape_markdown_url(url: &str) -> (r: String)
    ensures
        r@ == url_escape_spec(url@),
{
    let v = str_chars(url);
    let e = url_escape_chars(&v);
    chars_to_string(&e)
}

} // verus!
