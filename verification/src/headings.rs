//! Rendering of section headings and subheadings, with the fixed
//! title-to-emoji table.

use vstd::prelude::*;

use crate::escape::escape_chars;
use crate::escape::escape_spec;
use crate::escape::url_escape_chars;
use crate::escape::url_escape_spec;
use crate::text::chars_to_string;
use crate::text::chars_eq;
use crate::text::find_sub;
use crate::text::first_match;
use crate::text::lower_chars;
use crate::text::lower_spec;
use crate::text::push_all;
use crate::text::push_str_chars;
use crate::text::str_chars;
use crate::text::subvec;
use crate::text::trim_chars;
use crate::text::trim_spec;

verus! {

/// The emoji shown beside a known subheading title, looked up by its
/// lower-cased form.
pub open spec fn emoji_for(lower: Seq<char>) -> Option<Seq<char>> {
    if lower == "newsletters"@ {
        Some("📰"@)
    } else if lower == "project/tooling updates"@ {
        Some("🛠️"@)
    } else if lower == "compiler"@ {
        Some("🛠️"@)
    } else if lower == "observations/thoughts"@ {
        Some("🤔"@)
    } else if lower == "rust walkthroughs"@ {
        Some("📚"@)
    } else if lower == "library"@ {
        Some("📚"@)
    } else if lower == "cargo"@ {
        Some("📦"@)
    } else if lower == "rustdoc"@ {
        Some("📖"@)
    } else if lower == "clippy"@ {
        Some("🔧"@)
    } else if lower == "rust-analyzer"@ {
        Some("🤖"@)
    } else if lower == "rust compiler performance triage"@ {
        Some("📊"@)
    } else if lower == "tracking issues & prs"@ {
        Some("📌"@)
    } else {
        None
    }
}

/// The emoji for a lower-cased title, executable form.
fn emoji_chars(lower: &Vec<char>) -> (r: Option<Vec<char>>)
    ensures
        match r {
            Option::Some(e) => emoji_for(lower@) == Option::Some(e@),
            Option::None => emoji_for(lower@) is None,
        },
{
    let mut pat = str_chars("newsletters");
    if chars_eq(lower, &pat) {
        return Some(str_chars("📰"));
    }
    pat = str_chars("project/tooling updates");
    if chars_eq(lower, &pat) {
        return Some(str_chars("🛠️"));
    }
    pat = str_chars("compiler");
    if chars_eq(lower, &pat) {
        return Some(str_chars("🛠️"));
    }
    pat = str_chars("observations/thoughts");
    if chars_eq(lower, &pat) {
        return Some(str_chars("🤔"));
    }
    pat = str_chars("rust walkthroughs");
    if chars_eq(lower, &pat) {
        return Some(str_chars("📚"));
    }
    pat = str_chars("library");
    if chars_eq(lower, &pat) {
        return Some(str_chars("📚"));
    }
    pat = str_chars("cargo");
    if chars_eq(lower, &pat) {
        return Some(str_chars("📦"));
    }
    pat = str_chars("rustdoc");
    if chars_eq(lower, &pat) {
        return Some(str_chars("📖"));
    }
    pat = str_chars("clippy");
    if chars_eq(lower, &pat) {
        return Some(str_chars("🔧"));
    }
    pat = str_chars("rust-analyzer");
    if chars_eq(lower, &pat) {
        return Some(str_chars("🤖"));
    }
    pat = str_chars("rust compiler performance triage");
    if chars_eq(lower, &pat) {
        return Some(str_chars("📊"));
    }
    pat = str_chars("tracking issues & prs");
    if chars_eq(lower, &pat) {
        return Some(str_chars("📌"));
    }
    None
}

/// A level 3 or 4 heading rendered as one bold line: a link keeps its
/// link form, the quote-of-the-week title gets its own shape, a known
/// title gets its emoji, anything else is plain bold.
pub open spec fn format_subheading_spec(title: Seq<char>) -> Seq<char> {
    let t = trim_spec(title);
    if t.len() > 0 && t[0] == '[' && t.last() == ')' && first_match(t, "]("@, 0) is Some {
        let idx = first_match(t, "]("@, 0)->Some_0;
        "**["@ + escape_spec(t.subrange(1, idx)) + "]("@ + url_escape_spec(
            t.subrange(idx + 2, t.len() - 1),
        ) + ")**"@
    } else if lower_spec(t) == "quote of the week"@ {
        "\n**"@ + escape_spec(t) + ":** 💬\n"@
    } else {
        match emoji_for(lower_spec(t)) {
            Option::Some(e) => "\n**"@ + escape_spec(t) + ":** "@ + e,
            Option::None => "**"@ + escape_spec(t) + "**"@,
        }
    }
}

/// Renders a level 3 or level 4 heading as a bold line, with the emoji of
/// a known title.
pub fn format_subheading(title: &str) -> (r: String)
    ensures
        r@ == format_subheading_spec(title@),
{
    let tv = str_chars(title);
    let out = format_subheading_chars(&tv);
    chars_to_string(&out)
}

/// `format_subheading` over character vectors.
pub fn format_subheading_chars(title: &Vec<char>) -> (out: Vec<char>)
    ensures
        out@ == format_subheading_spec(title@),
{
    let t = trim_chars(title);
    let bra = str_chars("](");
    if t.len() > 0 && t[0] == '[' && t[t.len() - 1] == ')' {
        if let Option::Some(idx) = find_sub(&t, &bra, 0) {
            proof {
                reveal_strlit("](");
                crate::text::lemma_first_match_bounds(t@, bra@, 0);
                assert(t@.subrange(idx as int, idx + 2) == bra@);
                assert(t@.subrange(idx as int, idx + 2)[0] == t@[idx as int]);
                assert(t@.subrange(idx as int, idx + 2)[1] == t@[idx + 1]);
                assert(t@[idx as int] == ']');
                assert(t@[idx + 1] == '(');
                assert(idx >= 1);
                assert(idx + 2 <= t@.len() - 1);
            }
            let text = subvec(&t, 1, idx);
            let url = subvec(&t, idx + 2, t.len() - 1);
            let mut out = str_chars("**[");
            let etext = escape_chars(&text);
            push_all(&mut out, &etext);
            push_str_chars(&mut out, "](");
            let eurl = url_escape_chars(&url);
            push_all(&mut out, &eurl);
            push_str_chars(&mut out, ")**");
            return out;
        }
    }
    let lower = lower_chars(&t);
    let quote = str_chars("quote of the week");
    if chars_eq(&lower, &quote) {
        let mut out = str_chars("\n**");
        let et = escape_chars(&t);
        push_all(&mut out, &et);
        push_str_chars(&mut out, ":** 💬\n");
        return out;
    }
    match emoji_chars(&lower) {
        Option::Some(e) => {
            let mut out = str_chars("\n**");
            let et = escape_chars(&t);
            push_all(&mut out, &et);
            push_str_chars(&mut out, ":** ");
            push_all(&mut out, &e);
            out
        }
        Option::None => {
            let mut out = str_chars("**");
            let et = escape_chars(&t);
            push_all(&mut out, &et);
            push_str_chars(&mut out, "**");
            out
        }
    }
}

/// The upper-cased form of a text.  A function of the characters alone.
pub uninterp spec fn upper_of(s: Seq<char>) -> Seq<char>;

/// Relies on str::to_uppercase: the result depends on the characters
/// alone.
#[verifier::external_body]
fn to_uppercase_str(s: &str) -> (r: String)
    ensures
        r@ == upper_of(s@),
{
    s.to_uppercase()
}

/// The emoji framing a top-level section heading.
pub open spec fn heading_emoji(upper: Seq<char>) -> Seq<char> {
    if upper == "UPCOMING EVENTS"@ {
        "🎉"@
    } else if upper == "CRATE OF THE WEEK"@ {
        "📦"@
    } else {
        "📰"@
    }
}

/// A section heading rendered for a post: the upper-cased title in bold,
/// framed by its emoji.
pub open spec fn format_heading_spec(title: Seq<char>) -> Seq<char> {
    let u = upper_of(title);
    heading_emoji(u) + " **"@ + escape_spec(u) + "** "@ + heading_emoji(u)
}

/// Formats a section heading: bold upper-cased title framed by an emoji
/// chosen from the title.
pub fn format_heading(title: &str) -> (r: String)
    ensures
        r@ == format_heading_spec(title@),
{
    let upper = to_uppercase_str(title);
    let uv = str_chars(upper.as_str());
    let mut emoji = str_chars("📰");
    let ev1 = str_chars("UPCOMING EVENTS");
    let ev2 = str_chars("CRATE OF THE WEEK");
    if chars_eq(&uv, &ev1) {
        emoji = str_chars("🎉");
    } else if chars_eq(&uv, &ev2) {
        emoji = str_chars("📦");
    }
    let mut out: Vec<char> = Vec::new();
    push_all(&mut out, &emoji);
    push_str_chars(&mut out, " **");
    let eu = escape_chars(&uv);
    push_all(&mut out, &eu);
    push_str_chars(&mut out, "** ");
    push_all(&mut out, &emoji);
    chars_to_string(&out)
}

} // verus!
