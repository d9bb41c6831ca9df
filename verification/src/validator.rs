//! Markup validator: a single left-to-right scan over an entity stack that
//! proves a finished post well-formed before it leaves the pipeline.
//!
//! An escape marker consumes the next character verbatim.  A markup
//! delimiter toggles: it closes the entity on top of the stack, is rejected
//! when the same entity is open deeper in the stack, and opens a new entity
//! otherwise.  A link opening bracket demands an eagerly scanned, complete
//! `[...](...)` pair.  A reserved character that is structural at the start
//! of a line must be escaped unless it sits between two alphanumeric
//! characters, and may never begin the text.  A non-empty stack at the end
//! of the scan is an unclosed entity.

use vstd::prelude::*;

use crate::escape::is_line_reserved;
use crate::escape::line_reserved_char;
use crate::text::dec_chars;
use crate::text::dec_spec;
use crate::text::str_chars;
use crate::text::chars_to_string;
use crate::text::push_all;
use crate::text::push_str_chars;

verus! {

/// One open markup entity.
#[derive(Clone, Copy, PartialEq, Eq, Structural, Debug)]
pub enum EntityToken {
    Italic,
    Bold,
    Underline,
    DoubleUnderline,
    Strikethrough,
    Spoiler,
    Code,
    Fence,
}

/// Errors returned by the validator.
#[derive(Debug)]
pub enum MarkdownError {
    /// A markup entity was not closed properly or tags are mismatched.
    UnmatchedTag(String),
    /// The text contains an invalid escape or reserved character.
    InvalidEscape(String),
}

impl MarkdownError {
    /// The human-readable description carried by the error.
    pub fn message(&self) -> (r: &String)
        ensures
            r@ == error_message(*self),
    {
        match self {
            MarkdownError::UnmatchedTag(m) => m,
            MarkdownError::InvalidEscape(m) => m,
        }
    }
}

pub open spec fn error_message(e: MarkdownError) -> Seq<char> {
    match e {
        MarkdownError::UnmatchedTag(m) => m@,
        MarkdownError::InvalidEscape(m) => m@,
    }
}

/// The outcome of the scan, at specification level.
pub enum VerdictSpec {
    Accept,
    UnmatchedTag(Seq<char>),
    InvalidEscape(Seq<char>),
}

/// The delimiter text of one entity token.
pub open spec fn token_str(t: EntityToken) -> Seq<char> {
    match t {
        EntityToken::Italic => seq!['*'],
        EntityToken::Bold => seq!['*', '*'],
        EntityToken::Underline => seq!['_'],
        EntityToken::DoubleUnderline => seq!['_', '_'],
        EntityToken::Strikethrough => seq!['~'],
        EntityToken::Spoiler => seq!['|', '|'],
        EntityToken::Code => seq!['`'],
        EntityToken::Fence => seq!['`', '`', '`'],
    }
}

pub open spec fn mismatch_msg(t: EntityToken, i: int) -> Seq<char> {
    "Mismatched "@ + token_str(t) + " entity at "@ + dec_spec(i as nat)
}

pub open spec fn unclosed_msg(t: EntityToken, opened: int) -> Seq<char> {
    "Unclosed "@ + token_str(t) + " entity at "@ + dec_spec(opened as nat)
}

pub open spec fn unmatched_bracket_msg(i: int) -> Seq<char> {
    "Unmatched [ at "@ + dec_spec(i as nat)
}

pub open spec fn unescaped_msg(c: char, i: int) -> Seq<char> {
    "Unescaped "@ + seq![c] + " at "@ + dec_spec(i as nat)
}

pub open spec fn is_alnum(c: char) -> bool {
    ('0' <= c && c <= '9') || ('a' <= c && c <= 'z') || ('A' <= c && c <= 'Z')
}

/// The entity is open somewhere in the stack.
pub open spec fn stack_has(stack: Seq<(EntityToken, int)>, t: EntityToken) -> bool {
    exists|k: int| 0 <= k < stack.len() && (#[trigger] stack[k]).0 == t
}

/// A delimiter at position `pos` toggles the stack: closing the matching
/// top entity, opening a new one, or failing when the entity is open
/// deeper in the stack.
pub open spec fn toggle_spec(t: EntityToken, pos: int, stack: Seq<(EntityToken, int)>) -> Result<
    Seq<(EntityToken, int)>,
    (),
> {
    if stack.len() > 0 && stack.last().0 == t {
        Result::Ok(stack.drop_last())
    } else if stack_has(stack, t) {
        Result::Err(())
    } else {
        Result::Ok(stack.push((t, pos)))
    }
}

/// First position `j >= i` with `s[j] == target`, where an escape marker
/// consumes the following character.
pub open spec fn scan_to(s: Seq<char>, i: int, target: char) -> Option<int>
    decreases s.len() + 2 - i when 0 <= i
{
    if i >= s.len() {
        None
    } else if s[i] == '\\' {
        scan_to(s, i + 2, target)
    } else if s[i] == target {
        Some(i)
    } else {
        scan_to(s, i + 1, target)
    }
}

pub proof fn lemma_scan_to_bounds(s: Seq<char>, i: int, target: char)
    requires
        0 <= i,
    ensures
        match scan_to(s, i, target) {
            Option::Some(j) => i <= j < s.len() && s[j] == target,
            Option::None => true,
        },
    decreases s.len() + 2 - i,
{
    if i >= s.len() {
    } else if s[i] == '\\' {
        lemma_scan_to_bounds(s, i + 2, target);
    } else if s[i] == target {
    } else {
        lemma_scan_to_bounds(s, i + 1, target);
    }
}

/// The core scanner: processes `s` from position `i` with the given entity
/// stack and fence state, and yields the verdict of the whole text.
pub open spec fn scan(
    s: Seq<char>,
    i: int,
    stack: Seq<(EntityToken, int)>,
    fence: bool,
) -> VerdictSpec
    decreases s.len() + 2 - i,
    when 0 <= i
    via scan_dec
{
    if i >= s.len() {
        if stack.len() > 0 {
            VerdictSpec::UnmatchedTag(unclosed_msg(stack.last().0, stack.last().1))
        } else {
            VerdictSpec::Accept
        }
    } else {
        let c = s[i];
        if c == '*' || c == '_' {
            let dbl = i + 1 < s.len() && s[i + 1] == c;
            let t = if c == '*' {
                if dbl {
                    EntityToken::Bold
                } else {
                    EntityToken::Italic
                }
            } else {
                if dbl {
                    EntityToken::DoubleUnderline
                } else {
                    EntityToken::Underline
                }
            };
            let ni = if dbl {
                i + 2
            } else {
                i + 1
            };
            match toggle_spec(t, i, stack) {
                Result::Ok(st) => scan(s, ni, st, fence),
                Result::Err(_) => VerdictSpec::UnmatchedTag(mismatch_msg(t, i)),
            }
        } else if c == '~' {
            match toggle_spec(EntityToken::Strikethrough, i, stack) {
                Result::Ok(st) => scan(s, i + 1, st, fence),
                Result::Err(_) => VerdictSpec::UnmatchedTag(mismatch_msg(
                    EntityToken::Strikethrough,
                    i,
                )),
            }
        } else if c == '|' {
            if i + 1 < s.len() && s[i + 1] == '|' {
                match toggle_spec(EntityToken::Spoiler, i, stack) {
                    Result::Ok(st) => scan(s, i + 2, st, fence),
                    Result::Err(_) => VerdictSpec::UnmatchedTag(mismatch_msg(
                        EntityToken::Spoiler,
                        i,
                    )),
                }
            } else {
                scan(s, i + 1, stack, fence)
            }
        } else if c == '`' {
            if i + 2 < s.len() && s[i + 1] == '`' && s[i + 2] == '`' {
                match toggle_spec(EntityToken::Fence, i, stack) {
                    Result::Ok(st) => scan(s, i + 3, st, !fence),
                    Result::Err(_) => VerdictSpec::UnmatchedTag(mismatch_msg(
                        EntityToken::Fence,
                        i,
                    )),
                }
            } else {
                match toggle_spec(EntityToken::Code, i, stack) {
                    Result::Ok(st) => scan(s, i + 1, st, fence),
                    Result::Err(_) => VerdictSpec::UnmatchedTag(mismatch_msg(
                        EntityToken::Code,
                        i,
                    )),
                }
            }
        } else if c == '[' {
            match scan_to(s, i + 1, ']') {
                Option::None => VerdictSpec::UnmatchedTag(unmatched_bracket_msg(i)),
                Option::Some(j) => if j + 1 >= s.len() || s[j + 1] != '(' {
                    VerdictSpec::UnmatchedTag(unmatched_bracket_msg(i))
                } else {
                    match scan_to(s, j + 2, ')') {
                        Option::None => VerdictSpec::UnmatchedTag(unmatched_bracket_msg(i)),
                        Option::Some(k) => scan(s, k + 1, stack, fence),
                    }
                },
            }
        } else if c == '\\' {
            scan(s, i + 2, stack, fence)
        } else if is_line_reserved(c) {
            if fence {
                scan(s, i + 1, stack, fence)
            } else {
                let prev_escape = i > 0 && s[i - 1] == '\\';
                let in_word = i > 0 && is_alnum(s[i - 1]) && i + 1 < s.len() && is_alnum(
                    s[i + 1],
                );
                if prev_escape || in_word {
                    scan(s, i + 1, stack, fence)
                } else {
                    VerdictSpec::InvalidEscape(unescaped_msg(c, i))
                }
            }
        } else {
            scan(s, i + 1, stack, fence)
        }
    }
}

#[via_fn]
proof fn scan_dec(s: Seq<char>, i: int, stack: Seq<(EntityToken, int)>, fence: bool) {
    if 0 <= i < s.len() && s[i] == '[' {
        lemma_scan_to_bounds(s, i + 1, ']');
        if let Option::Some(j) = scan_to(s, i + 1, ']') {
            lemma_scan_to_bounds(s, j + 2, ')');
        }
    }
}

/// The verdict on a whole text: a leading structural character is rejected
/// outright, anything else is judged by the scanner.
pub open spec fn validate_spec(s: Seq<char>) -> VerdictSpec {
    if s.len() > 0 && is_line_reserved(s[0]) {
        VerdictSpec::InvalidEscape("Post starts with reserved character"@)
    } else {
        scan(s, 0, Seq::<(EntityToken, int)>::empty(), false)
    }
}

/// The message carried by a verdict; empty for acceptance.
pub open spec fn verdict_msg(v: VerdictSpec) -> Seq<char> {
    match v {
        VerdictSpec::Accept => Seq::empty(),
        VerdictSpec::UnmatchedTag(m) => m,
        VerdictSpec::InvalidEscape(m) => m,
    }
}

/// A text the validator accepts.
pub open spec fn is_valid_markdown(s: Seq<char>) -> bool {
    validate_spec(s) is Accept
}

/// The executable result agrees with the specification verdict, error
/// message included.
pub open spec fn matches_verdict(r: Result<(), MarkdownError>, v: VerdictSpec) -> bool {
    match v {
        VerdictSpec::Accept => r is Ok,
        VerdictSpec::UnmatchedTag(m) => match r {
            Result::Err(MarkdownError::UnmatchedTag(s)) => s@ == m,
            _ => false,
        },
        VerdictSpec::InvalidEscape(m) => match r {
            Result::Err(MarkdownError::InvalidEscape(s)) => s@ == m,
            _ => false,
        },
    }
}

fn alnum_char(c: char) -> (r: bool)
    ensures
        r == is_alnum(c),
{
    ('0' <= c && c <= '9') || ('a' <= c && c <= 'z') || ('A' <= c && c <= 'Z')
}

fn token_chars(t: EntityToken) -> (r: Vec<char>)
    ensures
        r@ == token_str(t),
{
    let r: Vec<char> = match t {
        EntityToken::Italic => vec!['*'],
        EntityToken::Bold => vec!['*', '*'],
        EntityToken::Underline => vec!['_'],
        EntityToken::DoubleUnderline => vec!['_', '_'],
        EntityToken::Strikethrough => vec!['~'],
        EntityToken::Spoiler => vec!['|', '|'],
        EntityToken::Code => vec!['`'],
        EntityToken::Fence => vec!['`', '`', '`'],
    };
    proof {
        assert(r@ =~= token_str(t));
    }
    r
}

fn mismatch_msg_exec(t: EntityToken, i: usize) -> (r: String)
    ensures
        r@ == mismatch_msg(t, i as int),
{
    let mut m = str_chars("Mismatched ");
    let tc = token_chars(t);
    push_all(&mut m, &tc);
    push_str_chars(&mut m, " entity at ");
    let d = dec_chars(i);
    push_all(&mut m, &d);
    chars_to_string(&m)
}

fn unclosed_msg_exec(t: EntityToken, opened: usize) -> (r: String)
    ensures
        r@ == unclosed_msg(t, opened as int),
{
    let mut m = str_chars("Unclosed ");
    let tc = token_chars(t);
    push_all(&mut m, &tc);
    push_str_chars(&mut m, " entity at ");
    let d = dec_chars(opened);
    push_all(&mut m, &d);
    chars_to_string(&m)
}

fn unmatched_bracket_msg_exec(i: usize) -> (r: String)
    ensures
        r@ == unmatched_bracket_msg(i as int),
{
    let mut m = str_chars("Unmatched [ at ");
    let d = dec_chars(i);
    push_all(&mut m, &d);
    chars_to_string(&m)
}

fn unescaped_msg_exec(c: char, i: usize) -> (r: String)
    ensures
        r@ == unescaped_msg(c, i as int),
{
    let mut m = str_chars("Unescaped ");
    m.push(c);
    push_str_chars(&mut m, " at ");
    let d = dec_chars(i);
    push_all(&mut m, &d);
    proof {
        assert(m@ =~= unescaped_msg(c, i as int));
    }
    chars_to_string(&m)
}

/// The spec-level stack an executable token stack and its parallel open
/// positions stand for.
pub open spec fn stacked(toks: Seq<EntityToken>, poss: Seq<usize>) -> Seq<(EntityToken, int)> {
    Seq::new(toks.len(), |k: int| (toks[k], poss[k] as int))
}

/// Applies one delimiter at position `pos` to the entity stack: pops a
/// matching top entity, rejects one that is open deeper in the stack,
/// pushes it with its position otherwise.
fn toggle_token(
    token: EntityToken,
    pos: usize,
    toks: &mut Vec<EntityToken>,
    poss: &mut Vec<usize>,
) -> (r: Result<(), MarkdownError>)
    requires
        old(toks)@.len() == old(poss)@.len(),
    ensures
        final(toks)@.len() == final(poss)@.len(),
        match toggle_spec(token, pos as int, stacked(old(toks)@, old(poss)@)) {
            Result::Ok(st) => r is Ok && stacked(final(toks)@, final(poss)@) == st,
            Result::Err(_) => final(toks)@ == old(toks)@ && final(poss)@ == old(poss)@
                && match r {
                Result::Err(MarkdownError::UnmatchedTag(m)) => m@ == mismatch_msg(
                    token,
                    pos as int,
                ),
                _ => false,
            },
        },
{
    let ghost pre = stacked(toks@, poss@);
    if toks.len() > 0 {
        let top = toks[toks.len() - 1];
        proof {
            assert(pre.last().0 == top);
        }
        if top == token {
            toks.pop();
            poss.pop();
            proof {
                assert(stacked(toks@, poss@) =~= pre.drop_last());
            }
            return Ok(());
        }
        let mut k: usize = 0;
        let mut present: bool = false;
        loop
            invariant_except_break
                !present,
            invariant
                k <= toks@.len(),
                toks@.len() == poss@.len(),
                pre == stacked(toks@, poss@),
                forall|j: int| 0 <= j < k ==> toks@[j] != token,
            ensures
                toks@.len() == poss@.len(),
                pre == stacked(toks@, poss@),
                present == stack_has(pre, token),
            decreases toks@.len() - k,
        {
            if k >= toks.len() {
                proof {
                    assert(forall|j: int|
                        0 <= j < pre.len() ==> (#[trigger] pre[j]).0 == toks@[j]);
                    assert(!stack_has(pre, token));
                }
                break;
            }
            if toks[k] == token {
                present = true;
                proof {
                    assert(pre[k as int].0 == token);
                    assert(stack_has(pre, token));
                }
                break;
            }
            k += 1;
        }
        if present {
            return Err(MarkdownError::UnmatchedTag(mismatch_msg_exec(token, pos)));
        }
        toks.push(token);
        poss.push(pos);
        proof {
            assert(stacked(toks@, poss@) =~= pre.push((token, pos as int)));
        }
        return Ok(());
    }
    proof {
        assert(!stack_has(pre, token));
    }
    toks.push(token);
    poss.push(pos);
    proof {
        assert(stacked(toks@, poss@) =~= pre.push((token, pos as int)));
    }
    Ok(())
}

/// First position at or after `start` holding `target`, where an escape
/// marker consumes the next character.
fn scan_to_exec(v: &Vec<char>, start: usize, target: char) -> (r: Option<usize>)
    requires
        start <= v@.len(),
    ensures
        match r {
            Option::Some(j) => scan_to(v@, start as int, target) == Option::Some(j as int)
                && start <= j < v@.len(),
            Option::None => scan_to(v@, start as int, target) is None,
        },
{
    let n = v.len();
    let mut j: usize = start;
    let mut hit: bool = false;
    loop
        invariant_except_break
            !hit,
        invariant
            start <= j <= n,
            n == v@.len(),
            scan_to(v@, start as int, target) == scan_to(v@, j as int, target),
        ensures
            n == v@.len(),
            scan_to(v@, start as int, target) == scan_to(v@, j as int, target),
            hit ==> j < n && v@[j as int] == target && v@[j as int] != '\\',
            !hit ==> j == n,
        decreases n - j,
    {
        if j >= n {
            break;
        }
        let c = v[j];
        if c == '\\' {
            j += 1;
            if j < n {
                j += 1;
            } else {
                proof {
                    assert(scan_to(v@, j as int, target) is None);
                    assert(scan_to(v@, j + 1, target) is None);
                }
                break;
            }
        } else if c == target {
            hit = true;
            break;
        } else {
            j += 1;
        }
    }
    if hit {
        proof {
            assert(scan_to(v@, j as int, target) == Option::Some(j as int));
        }
        Some(j)
    } else {
        proof {
            assert(scan_to(v@, j as int, target) is None);
        }
        None
    }
}

/// Validates that `text` conforms to the markup rules used by this
/// pipeline, reporting the first problem found.
pub fn validate_telegram_markdown(text: &str) -> (r: Result<(), MarkdownError>)
    ensures
        matches_verdict(r, validate_spec(text@)),
        r is Ok <==> is_valid_markdown(text@),
{
    let v = str_chars(text);
    let n = v.len();
    if n > 0 {
        let first = v[0];
        if line_reserved_char(first) {
            return Err(MarkdownError::InvalidEscape(chars_to_string(&str_chars(
                "Post starts with reserved character",
            ))));
        }
    }
    let ghost verdict = scan(text@, 0, Seq::<(EntityToken, int)>::empty(), false);
    proof {
        assert(validate_spec(text@) == verdict);
    }
    let mut toks: Vec<EntityToken> = Vec::new();
    let mut poss: Vec<usize> = Vec::new();
    proof {
        assert(stacked(toks@, poss@) =~= Seq::<(EntityToken, int)>::empty());
    }
    let mut fence: bool = false;
    let mut i: usize = 0;
    loop
        invariant
            i <= n,
            n == v@.len(),
            v@ == text@,
            toks@.len() == poss@.len(),
            validate_spec(text@) == verdict,
            verdict == scan(text@, i as int, stacked(toks@, poss@), fence),
        ensures
            n == v@.len(),
            i == n,
            toks@.len() == poss@.len(),
            validate_spec(text@) == verdict,
            verdict == scan(text@, i as int, stacked(toks@, poss@), fence),
        decreases n - i,
    {
        if i >= n {
            break;
        }
        let c = v[i];
        if c == '*' || c == '_' {
            let dbl = i + 1 < n && v[i + 1] == c;
            let t = if c == '*' {
                if dbl {
                    EntityToken::Bold
                } else {
                    EntityToken::Italic
                }
            } else {
                if dbl {
                    EntityToken::DoubleUnderline
                } else {
                    EntityToken::Underline
                }
            };
            let ghost pre = stacked(toks@, poss@);
            let r = toggle_token(t, i, &mut toks, &mut poss);
            proof {
                match toggle_spec(t, i as int, pre) {
                    Result::Ok(st) => {
                        assert(verdict == scan(text@, if dbl { i + 2 } else { i + 1 }, st, fence));
                    }
                    Result::Err(_) => {
                        assert(verdict == VerdictSpec::UnmatchedTag(mismatch_msg(t, i as int)));
                    }
                }
            }
            if let Err(e) = r {
                return Err(e);
            }
            if dbl {
                i += 2;
            } else {
                i += 1;
            }
        } else if c == '~' {
            let ghost pre = stacked(toks@, poss@);
            let r = toggle_token(EntityToken::Strikethrough, i, &mut toks, &mut poss);
            proof {
                match toggle_spec(EntityToken::Strikethrough, i as int, pre) {
                    Result::Ok(st) => {
                        assert(verdict == scan(text@, i + 1, st, fence));
                    }
                    Result::Err(_) => {
                        assert(verdict == VerdictSpec::UnmatchedTag(mismatch_msg(
                            EntityToken::Strikethrough,
                            i as int,
                        )));
                    }
                }
            }
            if let Err(e) = r {
                return Err(e);
            }
            i += 1;
        } else if c == '|' {
            if i + 1 < n && v[i + 1] == '|' {
                let ghost pre = stacked(toks@, poss@);
                let r = toggle_token(EntityToken::Spoiler, i, &mut toks, &mut poss);
                proof {
                    match toggle_spec(EntityToken::Spoiler, i as int, pre) {
                        Result::Ok(st) => {
                            assert(verdict == scan(text@, i + 2, st, fence));
                        }
                        Result::Err(_) => {
                            assert(verdict == VerdictSpec::UnmatchedTag(mismatch_msg(
                                EntityToken::Spoiler,
                                i as int,
                            )));
                        }
                    }
                }
                if let Err(e) = r {
                    return Err(e);
                }
                i += 2;
            } else {
                i += 1;
            }
        } else if c == '`' {
            if n - i > 2 && v[i + 1] == '`' && v[i + 2] == '`' {
                let ghost pre = stacked(toks@, poss@);
                let r = toggle_token(EntityToken::Fence, i, &mut toks, &mut poss);
                proof {
                    match toggle_spec(EntityToken::Fence, i as int, pre) {
                        Result::Ok(st) => {
                            assert(verdict == scan(text@, i + 3, st, !fence));
                        }
                        Result::Err(_) => {
                            assert(verdict == VerdictSpec::UnmatchedTag(mismatch_msg(
                                EntityToken::Fence,
                                i as int,
                            )));
                        }
                    }
                }
                if let Err(e) = r {
                    return Err(e);
                }
                fence = !fence;
                i += 3;
            } else {
                let ghost pre = stacked(toks@, poss@);
                let r = toggle_token(EntityToken::Code, i, &mut toks, &mut poss);
                proof {
                    match toggle_spec(EntityToken::Code, i as int, pre) {
                        Result::Ok(st) => {
                            assert(verdict == scan(text@, i + 1, st, fence));
                        }
                        Result::Err(_) => {
                            assert(verdict == VerdictSpec::UnmatchedTag(mismatch_msg(
                                EntityToken::Code,
                                i as int,
                            )));
                        }
                    }
                }
                if let Err(e) = r {
                    return Err(e);
                }
                i += 1;
            }
        } else if c == '[' {
            match scan_to_exec(&v, i + 1, ']') {
                Option::None => {
                    return Err(MarkdownError::UnmatchedTag(unmatched_bracket_msg_exec(i)));
                }
                Option::Some(j) => {
                    if j + 1 >= n {
                        return Err(MarkdownError::UnmatchedTag(unmatched_bracket_msg_exec(i)));
                    }
                    if v[j + 1] != '(' {
                        return Err(MarkdownError::UnmatchedTag(unmatched_bracket_msg_exec(i)));
                    }
                    match scan_to_exec(&v, j + 2, ')') {
                        Option::None => {
                            return Err(MarkdownError::UnmatchedTag(unmatched_bracket_msg_exec(
                                i,
                            )));
                        }
                        Option::Some(k) => {
                            i = k + 1;
                        }
                    }
                }
            }
        } else if c == '\\' {
            i += 1;
            if i < n {
                i += 1;
            } else {
                proof {
                    assert(scan(text@, i + 1, stacked(toks@, poss@), fence) == scan(
                        text@,
                        i as int,
                        stacked(toks@, poss@),
                        fence,
                    ));
                }
            }
        } else if line_reserved_char(c) {
            if fence {
                i += 1;
            } else {
                let prev_escape = i > 0 && v[i - 1] == '\\';
                let in_word = i > 0 && alnum_char(v[i - 1]) && i + 1 < n && alnum_char(v[i + 1]);
                if prev_escape || in_word {
                    i += 1;
                } else {
                    return Err(MarkdownError::InvalidEscape(unescaped_msg_exec(c, i)));
                }
            }
        } else {
            i += 1;
        }
    }
    if toks.len() > 0 {
        let top = toks[toks.len() - 1];
        let opened = poss[poss.len() - 1];
        proof {
            assert(stacked(toks@, poss@).last() == (top, opened as int));
        }
        return Err(MarkdownError::UnmatchedTag(unclosed_msg_exec(top, opened)));
    }
    Ok(())
}

} // verus!
