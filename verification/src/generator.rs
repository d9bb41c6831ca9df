//! Post assembler and its companions: metadata extraction, the
//! document-to-post pipeline, and the plain-text rendering of a post.

use vstd::prelude::*;

use crate::text::chars_to_string;
use crate::text::first_match;
use crate::text::lemma_first_match_bounds;
use crate::text::lemma_first_match_shift;
use crate::text::lines_of;
use crate::text::push_all;
use crate::text::push_str_chars;
use crate::text::replace_all;
use crate::text::replace_spec;
use crate::text::seq_starts_with;
use crate::text::split_lines;
use crate::text::starts_with_chars;
use crate::text::str_chars;
use crate::text::subvec;
use crate::text::trim_chars;
use crate::text::trim_spec;
use crate::text::capped;
use crate::text::dec_chars;
use crate::text::dec_spec;
use crate::text::eq_ignore_ascii_case_chars;
use crate::text::lower_spec;
use crate::text::split_char;
use crate::text::split_char_spec;
use crate::text::strip_char_prefix;
use crate::text::strip_char_prefix_chars;
use crate::text::utf8_len;
use crate::text::utf8_len_upto;
use crate::escape::escape_chars;
use crate::escape::escape_spec;
use crate::escape::url_escape_chars;
use crate::escape::url_escape_spec;
use crate::headings::format_heading_spec;
use crate::parser::SectionV;
use crate::parser::Section;
use crate::postprocess::cfp_spec;
use crate::postprocess::jobs_spec;
use crate::postprocess::quote_spec;
use crate::splitter::split_posts_spec;
use crate::validator::is_valid_markdown;
use crate::validator::validate_spec;
use crate::validator::verdict_msg;
use crate::TELEGRAM_LIMIT;

verus! {

/// Bytes reserved out of the post budget for the worst-case part marker
/// and the trailing line break the numbering step may add.
pub const PART_MARKER_RESERVE: usize = 51;

/// The byte budget posts are packed and split against, so that the part
/// marker never pushes a finished post past the hard limit.
pub const POST_BUDGET: usize = TELEGRAM_LIMIT - PART_MARKER_RESERVE;

/// An assembled post failed validation; the payload describes which and
/// why.
#[derive(Debug)]
pub struct ValidationError(pub String);

impl ValidationError {
    /// The human-readable description carried by the error.
    pub fn message(&self) -> (r: &String)
        ensures
            r@ == self.0@,
    {
        &self.0
    }
}

// ---------------------------------------------------------------------------
// Metadata
// ---------------------------------------------------------------------------

/// The value of the first line that starts with `prefix`, trimmed.
pub open spec fn find_value_lines(ls: Seq<Seq<char>>, prefix: Seq<char>) -> Option<Seq<char>>
    decreases ls.len()
{
    if ls.len() == 0 {
        None
    } else if seq_starts_with(ls[0], prefix) {
        Some(trim_spec(ls[0].skip(prefix.len() as int)))
    } else {
        find_value_lines(ls.drop_first(), prefix)
    }
}

pub open spec fn find_value_spec(text: Seq<char>, prefix: Seq<char>) -> Option<Seq<char>> {
    find_value_lines(lines_of(text), prefix)
}

/// Scans the text line by line for the first line starting with `prefix`
/// and yields the rest of that line, trimmed.
pub fn find_value(text: &str, prefix: &str) -> (r: Option<String>)
    ensures
        match r {
            Option::Some(v) => find_value_spec(text@, prefix@) == Option::Some(v@),
            Option::None => find_value_spec(text@, prefix@) is None,
        },
{
    let tv = str_chars(text);
    let pv = str_chars(prefix);
    let ls = split_lines(&tv);
    let n = ls.len();
    let mut i: usize = 0;
    let ghost lsv = ls.deep_view();
    proof {
        assert(lsv.skip(0) =~~= lsv);
    }
    while i < n
        invariant
            i <= n,
            n == ls@.len(),
            lsv == ls.deep_view(),
            lsv == lines_of(tv@),
            pv@ == prefix@,
            tv@ == text@,
            find_value_lines(lsv, prefix@) == find_value_lines(lsv.skip(i as int), prefix@),
        decreases n - i,
    {
        let line = &ls[i];
        proof {
            assert(line.deep_view() == lsv[i as int]);
            assert(line@ =~= lsv[i as int]);
            assert(lsv.skip(i as int)[0] == lsv[i as int]);
            assert(lsv.skip(i as int).drop_first() =~~= lsv.skip(i + 1));
        }
        if starts_with_chars(line, &pv) {
            let rest = subvec(line, pv.len(), line.len());
            let t = trim_chars(&rest);
            proof {
                assert(rest@ =~= lsv[i as int].skip(prefix@.len() as int));
            }
            return Some(chars_to_string(&t));
        }
        i += 1;
    }
    proof {
        assert(lsv.skip(n as int) =~~= Seq::<Seq<char>>::empty());
    }
    None
}

pub open spec fn find_title_spec(text: Seq<char>) -> Option<Seq<char>> {
    find_value_spec(text, "Title: "@)
}

pub open spec fn find_number_spec(text: Seq<char>) -> Option<Seq<char>> {
    find_value_spec(text, "Number: "@)
}

pub open spec fn find_date_spec(text: Seq<char>) -> Option<Seq<char>> {
    find_value_spec(text, "Date: "@)
}

/// The issue title named in the metadata header, if any.
pub fn find_title(text: &str) -> (r: Option<String>)
    ensures
        match r {
            Option::Some(v) => find_title_spec(text@) == Option::Some(v@),
            Option::None => find_title_spec(text@) is None,
        },
{
    find_value(text, "Title: ")
}

/// The issue number named in the metadata header, if any.
pub fn find_number(text: &str) -> (r: Option<String>)
    ensures
        match r {
            Option::Some(v) => find_number_spec(text@) == Option::Some(v@),
            Option::None => find_number_spec(text@) is None,
        },
{
    find_value(text, "Number: ")
}

/// The issue date named in the metadata header, if any.
pub fn find_date(text: &str) -> (r: Option<String>)
    ensures
        match r {
            Option::Some(v) => find_date_spec(text@) == Option::Some(v@),
            Option::None => find_date_spec(text@) is None,
        },
{
    find_value(text, "Date: ")
}

/// Is this line part of the metadata header?
pub open spec fn is_meta_line(l: Seq<char>) -> bool {
    seq_starts_with(l, "Title:"@) || seq_starts_with(l, "Number:"@) || seq_starts_with(
        l,
        "Date:"@,
    )
}

/// The document body: every line that is not a metadata line, each with a
/// trailing line break.
pub open spec fn strip_header_lines(ls: Seq<Seq<char>>) -> Seq<char>
    decreases ls.len()
{
    if ls.len() == 0 {
        Seq::empty()
    } else {
        (if is_meta_line(ls[0]) {
            Seq::empty()
        } else {
            ls[0].push('\n')
        }) + strip_header_lines(ls.drop_first())
    }
}

pub open spec fn strip_header_spec(text: Seq<char>) -> Seq<char> {
    strip_header_lines(lines_of(text))
}

/// Removes the metadata header lines, keeping every other line.
pub fn strip_header(text: &str) -> (r: String)
    ensures
        r@ == strip_header_spec(text@),
{
    let tv = str_chars(text);
    let ls = split_lines(&tv);
    let p_title = str_chars("Title:");
    let p_number = str_chars("Number:");
    let p_date = str_chars("Date:");
    let n = ls.len();
    let mut out: Vec<char> = Vec::new();
    let mut i: usize = 0;
    let ghost lsv = ls.deep_view();
    proof {
        assert(lsv.skip(0) =~~= lsv);
        assert(out@ + strip_header_lines(lsv) =~= strip_header_lines(lsv));
    }
    while i < n
        invariant
            i <= n,
            n == ls@.len(),
            lsv == ls.deep_view(),
            p_title@ == "Title:"@,
            p_number@ == "Number:"@,
            p_date@ == "Date:"@,
            strip_header_lines(lsv) == out@ + strip_header_lines(lsv.skip(i as int)),
        decreases n - i,
    {
        let line = &ls[i];
        let ghost pre = out@;
        proof {
            assert(line.deep_view() == lsv[i as int]);
            assert(line@ =~= lsv[i as int]);
            assert(lsv.skip(i as int)[0] == lsv[i as int]);
            assert(lsv.skip(i as int).drop_first() =~~= lsv.skip(i + 1));
        }
        if !(starts_with_chars(line, &p_title) || starts_with_chars(line, &p_number)
            || starts_with_chars(line, &p_date)) {
            push_all(&mut out, line);
            out.push('\n');
            proof {
                assert(out@ =~= pre + lsv[i as int].push('\n'));
                assert(pre + (lsv[i as int].push('\n') + strip_header_lines(lsv.skip(i + 1)))
                    =~= out@ + strip_header_lines(lsv.skip(i + 1)));
            }
        } else {
            proof {
                assert(pre + (Seq::<char>::empty() + strip_header_lines(lsv.skip(i + 1))) =~= out@
                    + strip_header_lines(lsv.skip(i + 1)));
            }
        }
        i += 1;
    }
    proof {
        assert(lsv.skip(n as int) =~~= Seq::<Seq<char>>::empty());
        assert(out@ + Seq::<char>::empty() =~= out@);
    }
    chars_to_string(&out)
}

// ---------------------------------------------------------------------------
// Chat identifiers and URL redaction
// ---------------------------------------------------------------------------

/// A chat identifier normalized to the channel form: named chats and
/// already-prefixed identifiers pass unchanged, anything else gets the
/// channel prefix after its own sign is stripped.
pub open spec fn normalize_chat_id_spec(id: Seq<char>) -> Seq<char> {
    if (id.len() > 0 && id[0] == '@') || seq_starts_with(id, "-100"@) {
        id
    } else {
        "-100"@ + crate::text::strip_char_prefix(id, '-')
    }
}

/// Normalizes a chat identifier to the channel prefix form.
pub fn normalize_chat_id(chat_id: &str) -> (r: String)
    ensures
        r@ == normalize_chat_id_spec(chat_id@),
{
    let v = str_chars(chat_id);
    let p = str_chars("-100");
    if (v.len() > 0 && v[0] == '@') || starts_with_chars(&v, &p) {
        return chars_to_string(&v);
    }
    let stripped = crate::text::strip_char_prefix_chars(&v, '-');
    let mut out = str_chars("-100");
    push_all(&mut out, &stripped);
    chars_to_string(&out)
}

/// The URL with every occurrence of the token replaced by a placeholder,
/// for logging.
pub open spec fn sanitize_url_spec(url: Seq<char>, token: Seq<char>) -> Seq<char> {
    replace_spec(url, token, "<token>"@)
}

/// Replaces the secret token inside `url` with a placeholder.
pub fn sanitize_url(url: &str, token: &str) -> (r: String)
    ensures
        r@ == sanitize_url_spec(url@, token@),
{
    let uv = str_chars(url);
    let tv = str_chars(token);
    let rv = str_chars("<token>");
    let out = replace_all(&uv, &tv, &rv);
    chars_to_string(&out)
}

// ---------------------------------------------------------------------------
// Plain-text rendering
// ---------------------------------------------------------------------------

/// Links rewritten from `[text](url)` to `text (url)`, scanning left to
/// right; on a malformed link the rest passes unchanged.
pub open spec fn replace_links_spec(s: Seq<char>) -> Seq<char>
    decreases s.len(),
    via replace_links_dec
{
    match first_match(s, seq!['['], 0) {
        Option::None => s,
        Option::Some(start) => match first_match(s, "]("@, start) {
            Option::None => s,
            Option::Some(mid) => match first_match(s, seq![')'], mid + 2) {
                Option::None => s,
                Option::Some(close) => s.take(start) + s.subrange(start + 1, mid) + " ("@
                    + s.subrange(mid + 2, close) + seq![')'] + replace_links_spec(
                    s.skip(close + 1),
                ),
            },
        },
    }
}

#[via_fn]
proof fn replace_links_dec(s: Seq<char>) {
    reveal_strlit("](");
    lemma_first_match_bounds(s, seq!['['], 0);
    if let Option::Some(start) = first_match(s, seq!['['], 0) {
        lemma_first_match_bounds(s, "]("@, start);
        if let Option::Some(mid) = first_match(s, "]("@, start) {
            if mid + 2 <= s.len() {
                lemma_first_match_bounds(s, seq![')'], mid + 2);
            }
        }
    }
}

/// Rewrites every well-formed `[text](url)` into `text (url)`.
pub fn replace_links(text: &str) -> (r: String)
    ensures
        r@ == replace_links_spec(text@),
{
    let v = str_chars(text);
    let n = v.len();
    let open_b: Vec<char> = vec!['['];
    let mid_p = str_chars("](");
    let close_p: Vec<char> = vec![')'];
    proof {
        assert(open_b@ =~= seq!['[']);
        assert(close_p@ =~= seq![')']);
    }
    let mut out: Vec<char> = Vec::new();
    let mut pos: usize = 0;
    proof {
        assert(v@.skip(0) =~= v@);
        assert(out@ + replace_links_spec(v@) =~= replace_links_spec(v@));
    }
    loop
        invariant
            pos <= n,
            n == v@.len(),
            open_b@ == seq!['['],
            mid_p@ == "]("@,
            close_p@ == seq![')'],
            replace_links_spec(v@) == out@ + replace_links_spec(v@.skip(pos as int)),
        ensures
            out@ == replace_links_spec(v@),
        decreases n - pos,
    {
        let ghost rest = v@.skip(pos as int);
        proof {
            reveal_strlit("](");
        }
        let found = match find_sub_local(&v, &open_b, pos) {
            Option::Some(start) => {
                match find_sub_local(&v, &mid_p, start) {
                    Option::Some(mid) => {
                        match find_sub_local(&v, &close_p, mid + 2) {
                            Option::Some(close) => Option::Some((start, mid, close)),
                            Option::None => Option::None,
                        }
                    }
                    Option::None => Option::None,
                }
            }
            Option::None => Option::None,
        };
        match found {
            Option::Some((start, mid, close)) => {
                proof {
                    lemma_first_match_bounds(v@, seq!['['], pos as int);
                    lemma_first_match_bounds(v@, "]("@, start as int);
                    lemma_first_match_bounds(v@, seq![')'], mid + 2);
                    assert(v@.subrange(start as int, start + 1)[0] == v@[start as int]);
                    assert(v@[start as int] == '[');
                    assert(v@.subrange(mid as int, mid + 2)[0] == v@[mid as int]);
                    assert(v@[mid as int] == ']');
                    assert(start < mid);
                    lemma_first_match_shift(v@, seq!['['], pos as int, pos as int);
                    assert(first_match(rest, seq!['['], 0) == Option::Some(start - pos));
                    lemma_first_match_shift(v@, "]("@, pos as int, mid as int);
                    lemma_first_match_shift(v@, "]("@, pos as int, start as int);
                    assert(first_match(rest, "]("@, start - pos) == Option::Some(mid - pos));
                    lemma_first_match_shift(v@, seq![')'], pos as int, mid + 2);
                    assert(first_match(rest, seq![')'], mid + 2 - pos) == Option::Some(
                        close - pos,
                    ));
                    assert(rest.take(start - pos) =~= v@.subrange(pos as int, start as int));
                    assert(rest.subrange(start - pos + 1, mid - pos) =~= v@.subrange(
                        start + 1,
                        mid as int,
                    ));
                    assert(rest.subrange(mid - pos + 2, close - pos) =~= v@.subrange(
                        mid + 2,
                        close as int,
                    ));
                    assert(rest.skip(close - pos + 1) =~= v@.skip(close + 1));
                }
                let seg = subvec(&v, pos, start);
                push_all(&mut out, &seg);
                let label = subvec(&v, start + 1, mid);
                push_all(&mut out, &label);
                push_str_chars(&mut out, " (");
                let target = subvec(&v, mid + 2, close);
                push_all(&mut out, &target);
                out.push(')');
                pos = close + 1;
            }
            Option::None => {
                proof {
                    lemma_first_match_shift(v@, seq!['['], pos as int, pos as int);
                    if let Option::Some(start) = first_match(v@, seq!['['], pos as int) {
                        lemma_first_match_bounds(v@, seq!['['], pos as int);
                        lemma_first_match_shift(v@, "]("@, pos as int, start);
                        if let Option::Some(mid) = first_match(v@, "]("@, start) {
                            lemma_first_match_bounds(v@, "]("@, start);
                            lemma_first_match_shift(v@, seq![')'], pos as int, mid + 2);
                        }
                    }
                    assert(replace_links_spec(rest) == rest);
                }
                let seg = subvec(&v, pos, v.len());
                push_all(&mut out, &seg);
                proof {
                    assert(seg@ =~= rest);
                }
                pos = n;
                proof {
                    assert(v@.skip(n as int) =~= Seq::<char>::empty());
                    assert(replace_links_spec(Seq::<char>::empty()) == Seq::<char>::empty());
                    assert(out@ + Seq::<char>::empty() =~= out@);
                }
                break;
            }
        }
    }
    chars_to_string(&out)
}

fn find_sub_local(v: &Vec<char>, p: &Vec<char>, from: usize) -> (r: Option<usize>)
    requires
        from <= v@.len(),
    ensures
        match r {
            Option::Some(i) => first_match(v@, p@, from as int) == Option::Some(i as int)
                && from <= i && i + p@.len() <= v@.len(),
            Option::None => first_match(v@, p@, from as int) is None,
        },
{
    crate::text::find_sub(v, p, from)
}

/// The running state of the plain-text rendering.
#[verifier::ext_equal]
pub struct PlainSt {
    /// The rendered text so far.
    pub result: Seq<char>,
    /// Inside a link: text accumulates separately until the link closes.
    pub in_link: bool,
    /// The text of the open link.
    pub link_text: Seq<char>,
    /// The destination of the open link.
    pub link_dest: Seq<char>,
}

pub open spec fn plain_init() -> PlainSt {
    PlainSt {
        result: Seq::empty(),
        in_link: false,
        link_text: Seq::empty(),
        link_dest: Seq::empty(),
    }
}

/// Bullets rendered as dashes.
pub open spec fn bullet_dashes(s: Seq<char>) -> Seq<char> {
    replace_spec(s, seq!['•'], seq!['-'])
}

/// A closed link rendered as `text (url)`.
pub open spec fn plain_link(st: PlainSt) -> Seq<char> {
    st.result + bullet_dashes(st.link_text) + " ("@ + st.link_dest + seq![')']
}

/// One document event applied to the plain-text rendering: link text is
/// held back until the link closes, breaks become line breaks, markup
/// events vanish.
pub open spec fn plain_step(st: PlainSt, ev: crate::events::MdEv) -> PlainSt {
    match ev {
        crate::events::MdEv::LinkStart(d) => PlainSt {
            in_link: true,
            link_dest: d,
            link_text: Seq::empty(),
            ..st
        },
        crate::events::MdEv::LinkEnd => PlainSt {
            result: plain_link(st),
            in_link: false,
            ..st
        },
        crate::events::MdEv::Text(t) => if st.in_link {
            PlainSt { link_text: st.link_text + t, ..st }
        } else {
            PlainSt { result: st.result + bullet_dashes(t), ..st }
        },
        crate::events::MdEv::Code(t) => if st.in_link {
            PlainSt { link_text: st.link_text + t, ..st }
        } else {
            PlainSt { result: st.result + bullet_dashes(t), ..st }
        },
        crate::events::MdEv::SoftBreak => PlainSt { result: st.result.push('\n'), ..st },
        crate::events::MdEv::HardBreak => PlainSt { result: st.result.push('\n'), ..st },
        _ => st,
    }
}

/// The plain rendering folded over an event sequence.
pub open spec fn plain_run(st: PlainSt, evs: Seq<crate::events::MdEv>) -> PlainSt
    decreases evs.len()
{
    if evs.len() == 0 {
        st
    } else {
        plain_run(plain_step(st, evs[0]), evs.drop_first())
    }
}

pub proof fn lemma_plain_run_snoc(
    st: PlainSt,
    evs: Seq<crate::events::MdEv>,
    ev: crate::events::MdEv,
)
    ensures
        plain_run(st, evs.push(ev)) == plain_step(plain_run(st, evs), ev),
    decreases evs.len(),
{
    if evs.len() == 0 {
        assert(evs.push(ev)[0] == ev);
        assert(evs.push(ev).drop_first() =~= Seq::<crate::events::MdEv>::empty());
        assert(plain_run(st, evs.push(ev)) == plain_run(
            plain_step(st, ev),
            evs.push(ev).drop_first(),
        ));
        assert(plain_run(plain_step(st, ev), evs.push(ev).drop_first()) == plain_step(st, ev));
        assert(plain_run(st, evs) == st);
    } else {
        assert(evs.push(ev)[0] == evs[0]);
        assert(evs.push(ev).drop_first() =~= evs.drop_first().push(ev));
        lemma_plain_run_snoc(plain_step(st, evs[0]), evs.drop_first(), ev);
        assert(plain_run(st, evs.push(ev)) == plain_run(
            plain_step(st, evs[0]),
            evs.drop_first().push(ev),
        ));
        assert(plain_run(st, evs) == plain_run(plain_step(st, evs[0]), evs.drop_first()));
    }
}

/// A link still open at the end of the events is rendered as it stands.
pub open spec fn plain_finish(st: PlainSt) -> Seq<char> {
    if st.in_link {
        plain_link(st)
    } else {
        st.result
    }
}

/// A post converted to plain text: escape markers removed, then the plain
/// event stream rendered with links as `text (url)`, bullets as dashes,
/// and markup dropped.
pub open spec fn markdown_to_plain_spec(text: Seq<char>) -> Seq<char> {
    plain_finish(
        plain_run(
            plain_init(),
            crate::events::md_events_plain(replace_spec(text, seq!['\\'], Seq::empty())),
        ),
    )
}

/// Converts a rendered post to a plain-text representation with
/// formatting markers removed.
pub fn markdown_to_plain(text: &str) -> (r: String)
    ensures
        r@ == markdown_to_plain_spec(text@),
{
    let tv = str_chars(text);
    let marker: Vec<char> = vec!['\\'];
    let empty: Vec<char> = Vec::new();
    proof {
        assert(marker@ =~= seq!['\\']);
        assert(empty@ =~= Seq::<char>::empty());
    }
    let unescaped = replace_all(&tv, &marker, &empty);
    let s1 = chars_to_string(&unescaped);
    let evs = crate::events::parse_events_plain(s1.as_str());
    let bullet: Vec<char> = vec!['•'];
    let dash: Vec<char> = vec!['-'];
    proof {
        assert(bullet@ =~= seq!['•']);
        assert(dash@ =~= seq!['-']);
    }
    let n = evs.len();
    let mut result: Vec<char> = Vec::new();
    let mut in_link: bool = false;
    let mut link_text: Vec<char> = Vec::new();
    let mut link_dest: Vec<char> = Vec::new();
    let mut i: usize = 0;
    proof {
        assert(evs.deep_view().take(0) =~~= Seq::<crate::events::MdEv>::empty());
        assert((PlainSt {
            result: result@,
            in_link: in_link,
            link_text: link_text@,
            link_dest: link_dest@,
        }) =~~= plain_init());
    }
    while i < n
        invariant
            i <= n,
            n == evs@.len(),
            bullet@ == seq!['•'],
            dash@ == seq!['-'],
            (PlainSt {
                result: result@,
                in_link: in_link,
                link_text: link_text@,
                link_dest: link_dest@,
            }) == plain_run(plain_init(), evs.deep_view().take(i as int)),
        decreases n - i,
    {
        let ghost pre = PlainSt {
            result: result@,
            in_link: in_link,
            link_text: link_text@,
            link_dest: link_dest@,
        };
        let ghost gev = evs.deep_view()[i as int];
        proof {
            assert(evs.deep_view().take(i + 1) =~~= evs.deep_view().take(i as int).push(gev));
            lemma_plain_run_snoc(plain_init(), evs.deep_view().take(i as int), gev);
            assert(gev == evs@[i as int]@);
        }
        let ev = &evs[i];
        match ev {
            crate::events::MdEvent::LinkStart(d) => {
                in_link = true;
                link_dest = str_chars(d.as_str());
                link_text = Vec::new();
            }
            crate::events::MdEvent::LinkEnd => {
                let lt = replace_all(&link_text, &bullet, &dash);
                push_all(&mut result, &lt);
                push_str_chars(&mut result, " (");
                push_all(&mut result, &link_dest);
                result.push(')');
                in_link = false;
                proof {
                    assert(result@ =~= plain_link(pre));
                }
            }
            crate::events::MdEvent::Text(t) => {
                let tvv = str_chars(t.as_str());
                if in_link {
                    push_all(&mut link_text, &tvv);
                } else {
                    let c = replace_all(&tvv, &bullet, &dash);
                    push_all(&mut result, &c);
                }
            }
            crate::events::MdEvent::Code(t) => {
                let tvv = str_chars(t.as_str());
                if in_link {
                    push_all(&mut link_text, &tvv);
                } else {
                    let c = replace_all(&tvv, &bullet, &dash);
                    push_all(&mut result, &c);
                }
            }
            crate::events::MdEvent::SoftBreak => {
                result.push('\n');
            }
            crate::events::MdEvent::HardBreak => {
                result.push('\n');
            }
            _ => {}
        }
        proof {
            assert((PlainSt {
                result: result@,
                in_link: in_link,
                link_text: link_text@,
                link_dest: link_dest@,
            }) =~~= plain_step(pre, gev));
        }
        i += 1;
    }
    proof {
        assert(evs.deep_view().take(n as int) =~~= evs.deep_view());
    }
    if in_link {
        let ghost fin = PlainSt {
            result: result@,
            in_link: in_link,
            link_text: link_text@,
            link_dest: link_dest@,
        };
        let lt = replace_all(&link_text, &bullet, &dash);
        push_all(&mut result, &lt);
        push_str_chars(&mut result, " (");
        push_all(&mut result, &link_dest);
        result.push(')');
        proof {
            assert(result@ =~= plain_link(fin));
        }
    }
    chars_to_string(&result)
}

// ---------------------------------------------------------------------------
// The document-to-post pipeline, specification
// ---------------------------------------------------------------------------

/// The permalink built from the issue date and number, when the date has
/// at least three dash-separated components.
pub open spec fn permalink_spec(date: Seq<char>, number: Seq<char>) -> Option<Seq<char>> {
    let parts = split_char_spec(date, '-');
    if parts.len() >= 3 {
        Some(
            "https://this-week-in-rust.org/blog/"@ + parts[0] + seq!['/'] + parts[1]
                + seq!['/'] + parts[2] + "/this-week-in-rust-"@ + number + seq!['/'],
        )
    } else {
        None
    }
}

pub open spec fn jobs_chat_line() -> Seq<char> {
    "💼 [Rust Jobs chat]("@ + url_escape_spec("https://t.me/rust_jobs"@) + ")"@
}

pub open spec fn jobs_feed_line() -> Seq<char> {
    "📢 [Rust Jobs feed]("@ + url_escape_spec("https://t.me/rust_jobs_feed"@) + ")"@
}

pub open spec fn jobs_hh_line() -> Seq<char> {
    "📝 [Rust HH jobs]("@ + url_escape_spec("https://t.me/rusthhjobs"@)
        + ") — channel with Rust jobs from HeadHunter"@
}

/// One parsed section taken through the post-processors: the jobs rewrite
/// with its injected community links, the CFP simplifier, and the quote
/// simplifier.
pub open spec fn transform_section(sec: SectionV) -> SectionV {
    let s1 = if lower_spec(sec.title) == lower_spec("Jobs"@) && sec.lines.len() > 0 {
        let j = jobs_spec(sec);
        SectionV {
            title: j.title,
            lines: j.lines.insert(1, jobs_chat_line()).insert(2, jobs_feed_line()).insert(
                3,
                jobs_hh_line(),
            ),
        }
    } else {
        sec
    };
    let s2 = if lower_spec(s1.title) == lower_spec(
        "Call for Participation; projects and speakers"@,
    ) {
        cfp_spec(s1)
    } else {
        s1
    };
    quote_spec(s2)
}

/// The named section dropped entirely from the output.
pub open spec fn keep_section(sec: SectionV) -> bool {
    lower_spec(sec.title) != lower_spec("Upcoming Events"@)
}

/// All sections transformed, the dropped one removed.
pub open spec fn process_run(secs: Seq<SectionV>) -> Seq<SectionV>
    decreases secs.len()
{
    if secs.len() == 0 {
        Seq::empty()
    } else {
        let front = process_run(secs.drop_last());
        let t = transform_section(secs.last());
        if keep_section(t) {
            front.push(t)
        } else {
            front
        }
    }
}

/// The synthetic trailing section holding the permalink.
pub open spec fn link_section_spec(url: Seq<char>) -> SectionV {
    SectionV {
        title: Seq::empty(),
        lines: seq![
            Seq::<char>::empty(),
            "🌐 [View web version]("@ + url_escape_spec(url) + ") 🌐"@,
        ],
    }
}

/// The header blob built from the issue number and date.
pub open spec fn header_spec(number: Option<Seq<char>>, date: Option<Seq<char>>) -> Seq<char> {
    let h1 = match number {
        Option::Some(n) => "\\#"@ + escape_spec(n),
        Option::None => Seq::<char>::empty(),
    };
    let h2 = h1 + (match date {
        Option::Some(d) => " — "@ + escape_spec(d),
        Option::None => Seq::<char>::empty(),
    });
    if h2.len() > 0 {
        h2 + "\n\n"@
    } else {
        h2
    }
}

/// A section's lines, each with a trailing line break.
pub open spec fn lines_blob(lines: Seq<Seq<char>>) -> Seq<char>
    decreases lines.len()
{
    if lines.len() == 0 {
        Seq::empty()
    } else {
        lines[0].push('\n') + lines_blob(lines.drop_first())
    }
}

/// One section rendered for assembly: the header on the first section, a
/// heading line when the section is titled, then its lines.
pub open spec fn section_text_spec(sec: SectionV, idx: int, header: Seq<char>) -> Seq<char> {
    (if idx == 0 {
        header
    } else {
        Seq::<char>::empty()
    }) + (if sec.title.len() > 0 {
        (if idx > 0 {
            seq!['\n']
        } else {
            Seq::<char>::empty()
        }) + format_heading_spec(sec.title) + seq!['\n']
    } else {
        Seq::<char>::empty()
    }) + lines_blob(sec.lines)
}

/// The assembler after the first `i` sections: the closed posts and the
/// open buffer.
pub open spec fn assemble_upto(secs: Seq<SectionV>, header: Seq<char>, i: int) -> (
    Seq<Seq<char>>,
    Seq<char>,
)
    decreases i when 0 <= i
{
    if i <= 0 {
        (Seq::empty(), Seq::empty())
    } else {
        let prev = assemble_upto(secs, header, i - 1);
        let st = section_text_spec(secs[i - 1], i - 1, header);
        if prev.1.len() > 0 && utf8_len(prev.1) + utf8_len(st) > POST_BUDGET {
            (prev.0.push(prev.1), st)
        } else {
            (prev.0, prev.1 + st)
        }
    }
}

/// The posts the assembler closes over all sections.
pub open spec fn assembled_posts(secs: Seq<SectionV>, header: Seq<char>) -> Seq<Seq<char>> {
    let fin = assemble_upto(secs, header, secs.len() as int);
    if fin.1.len() > 0 {
        fin.0.push(fin.1)
    } else {
        fin.0
    }
}

/// Over-long posts re-split independently, in order.
pub open spec fn resplit_upto(posts: Seq<Seq<char>>, i: int) -> Seq<Seq<char>>
    decreases i when 0 <= i
{
    if i <= 0 {
        Seq::empty()
    } else {
        let front = resplit_upto(posts, i - 1);
        let p = posts[i - 1];
        if utf8_len(p) > POST_BUDGET {
            front + split_posts_spec(p, POST_BUDGET as nat)
        } else {
            front.push(p)
        }
    }
}

/// One post numbered: a trailing line break ensured, leading blank lines
/// trimmed, and every post but the first prefixed with its part marker.
pub open spec fn format_post_spec(p: Seq<char>, i: int, total: int) -> Seq<char> {
    let p1 = if p.len() > 0 && p.last() == '\n' {
        p
    } else {
        p.push('\n')
    };
    let core = strip_char_prefix(p1, '\n');
    if i == 0 {
        core
    } else {
        "*Part "@ + dec_spec((i + 1) as nat) + seq!['/'] + dec_spec(total as nat) + "*\n\n"@
            + core
    }
}

pub open spec fn gen_err_msg(i: int, f: Seq<char>) -> Seq<char> {
    "Generated post "@ + dec_spec((i + 1) as nat) + " invalid: "@ + verdict_msg(
        validate_spec(f),
    )
}

/// Posts numbered and validated from index `i` on: the first invalid post
/// aborts the whole conversion.
pub open spec fn number_upto(posts: Seq<Seq<char>>, i: int, total: int) -> Result<
    Seq<Seq<char>>,
    Seq<char>,
>
    decreases posts.len() - i when 0 <= i
{
    if i >= posts.len() {
        Result::Ok(Seq::empty())
    } else {
        let f = format_post_spec(posts[i], i, total);
        if is_valid_markdown(f) {
            match number_upto(posts, i + 1, total) {
                Result::Ok(rest) => Result::Ok(seq![f] + rest),
                Result::Err(m) => Result::Err(m),
            }
        } else {
            Result::Err(gen_err_msg(i, f))
        }
    }
}

/// The whole pipeline: metadata, body, parse, post-process, permalink,
/// assemble, re-split, number and validate.
pub open spec fn generate_posts_spec(input: Seq<char>) -> Result<Seq<Seq<char>>, Seq<char>> {
    let number = find_number_spec(input);
    let date = find_date_spec(input);
    let url = match (date, number) {
        (Option::Some(d), Option::Some(n)) => permalink_spec(d, n),
        _ => None,
    };
    let input2 = replace_spec(input, "_Полный выпуск: ссылка_"@, Seq::empty());
    let body = strip_header_spec(input2);
    let secs0 = crate::parser::parse_sections_spec(body);
    let processed = process_run(secs0);
    let secs = match url {
        Option::Some(u) => processed.push(link_section_spec(u)),
        Option::None => processed,
    };
    let header = header_spec(number, date);
    let assembled = assembled_posts(secs, header);
    let finals = resplit_upto(assembled, assembled.len() as int);
    number_upto(finals, 0, finals.len() as int)
}

// ---------------------------------------------------------------------------
// Bounds carried by the pipeline
// ---------------------------------------------------------------------------

proof fn lemma_resplit_bound(posts: Seq<Seq<char>>, i: int)
    requires
        0 <= i <= posts.len(),
    ensures
        forall|k: int|
            0 <= k < resplit_upto(posts, i).len() ==> utf8_len(
                #[trigger] resplit_upto(posts, i)[k],
            ) <= POST_BUDGET,
    decreases i,
{
    if i > 0 {
        lemma_resplit_bound(posts, i - 1);
        let p = posts[i - 1];
        if utf8_len(p) > POST_BUDGET {
            crate::splitter::lemma_split_posts_bound(p, POST_BUDGET as nat);
            assert forall|k: int|
                0 <= k < resplit_upto(posts, i).len() implies utf8_len(
                #[trigger] resplit_upto(posts, i)[k],
            ) <= POST_BUDGET by {
                let front = resplit_upto(posts, i - 1);
                let pieces = split_posts_spec(p, POST_BUDGET as nat);
                if k < front.len() {
                    assert((front + pieces)[k] == front[k]);
                } else {
                    assert((front + pieces)[k] == pieces[k - front.len()]);
                }
            }
        }
    }
}

proof fn lemma_format_post_bound(p: Seq<char>, i: int, total: int)
    requires
        utf8_len(p) <= POST_BUDGET,
        0 <= i,
        0 <= total <= usize::MAX,
        i + 1 <= usize::MAX,
    ensures
        utf8_len(format_post_spec(p, i, total)) <= TELEGRAM_LIMIT,
{
    let p1 = if p.len() > 0 && p.last() == '\n' {
        p
    } else {
        p.push('\n')
    };
    crate::text::lemma_utf8_len_push(p, '\n');
    let core = strip_char_prefix(p1, '\n');
    lemma_char_prefix_le(p1, '\n');
    crate::text::lemma_utf8_len_skip_le(p1, crate::text::char_prefix_len(p1, '\n') as int);
    if i == 0 {
    } else {
        crate::text::lemma_dec_ascii((i + 1) as nat);
        crate::text::lemma_dec_ascii(total as nat);
        crate::text::lemma_dec_len_word((i + 1) as nat);
        crate::text::lemma_dec_len_word(total as nat);
        reveal_strlit("*Part ");
        reveal_strlit("*\n\n");
        assert(utf8_len("*Part "@) == 6) by {
            crate::text::lemma_utf8_len_ascii("*Part "@);
        }
        assert(utf8_len("*\n\n"@) == 3) by {
            crate::text::lemma_utf8_len_ascii("*\n\n"@);
        }
        assert(seq!['/'].skip(1) =~= Seq::<char>::empty());
        assert(utf8_len(Seq::<char>::empty()) == 0);
        assert(utf8_len(seq!['/']) == 1);
        crate::text::lemma_utf8_len_concat("*Part "@, dec_spec((i + 1) as nat));
        crate::text::lemma_utf8_len_concat(
            "*Part "@ + dec_spec((i + 1) as nat),
            seq!['/'],
        );
        crate::text::lemma_utf8_len_concat(
            "*Part "@ + dec_spec((i + 1) as nat) + seq!['/'],
            dec_spec(total as nat),
        );
        crate::text::lemma_utf8_len_concat(
            "*Part "@ + dec_spec((i + 1) as nat) + seq!['/'] + dec_spec(total as nat),
            "*\n\n"@,
        );
        crate::text::lemma_utf8_len_concat(
            "*Part "@ + dec_spec((i + 1) as nat) + seq!['/'] + dec_spec(total as nat)
                + "*\n\n"@,
            core,
        );
    }
}

proof fn lemma_char_prefix_le(s: Seq<char>, c: char)
    ensures
        crate::text::char_prefix_len(s, c) <= s.len(),
    decreases s.len(),
{
    if s.len() > 0 && s[0] == c {
        lemma_char_prefix_le(s.skip(1), c);
    }
}

/// Law: when numbering succeeds, every numbered post passed the validator
/// and stayed within the byte budget plus the marker margin.
pub proof fn lemma_number_upto_props(posts: Seq<Seq<char>>, i: int, total: int)
    requires
        0 <= i,
        0 <= total <= usize::MAX,
        posts.len() <= usize::MAX,
        forall|k: int| 0 <= k < posts.len() ==> utf8_len(#[trigger] posts[k]) <= POST_BUDGET,
    ensures
        match number_upto(posts, i, total) {
            Result::Ok(list) => forall|k: int|
                0 <= k < list.len() ==> is_valid_markdown(#[trigger] list[k]) && utf8_len(
                    list[k],
                ) <= TELEGRAM_LIMIT,
            Result::Err(_) => true,
        },
    decreases posts.len() - i,
{
    if i >= posts.len() {
    } else {
        let f = format_post_spec(posts[i], i, total);
        if is_valid_markdown(f) {
            lemma_number_upto_props(posts, i + 1, total);
            lemma_format_post_bound(posts[i], i, total);
            if let Result::Ok(rest) = number_upto(posts, i + 1, total) {
                assert forall|k: int|
                    0 <= k < (seq![f] + rest).len() implies is_valid_markdown(
                    #[trigger] (seq![f] + rest)[k],
                ) && utf8_len((seq![f] + rest)[k]) <= TELEGRAM_LIMIT by {
                    if k == 0 {
                        assert((seq![f] + rest)[0] == f);
                    } else {
                        assert((seq![f] + rest)[k] == rest[k - 1]);
                    }
                }
            }
        }
    }
}


// ---------------------------------------------------------------------------
// The document-to-post pipeline, executable
// ---------------------------------------------------------------------------

pub proof fn lemma_lines_blob_snoc(ls: Seq<Seq<char>>, l: Seq<char>)
    ensures
        lines_blob(ls.push(l)) == lines_blob(ls) + l.push('\n'),
    decreases ls.len(),
{
    if ls.len() == 0 {
        assert(ls.push(l)[0] == l);
        assert(ls.push(l).drop_first() =~~= Seq::<Seq<char>>::empty());
        assert(lines_blob(ls) + l.push('\n') =~= l.push('\n'));
        assert(l.push('\n') + lines_blob(Seq::<Seq<char>>::empty()) =~= l.push('\n'));
    } else {
        assert(ls.push(l)[0] == ls[0]);
        assert(ls.push(l).drop_first() =~~= ls.drop_first().push(l));
        lemma_lines_blob_snoc(ls.drop_first(), l);
        assert(ls[0].push('\n') + (lines_blob(ls.drop_first()) + l.push('\n')) =~= (
        ls[0].push('\n') + lines_blob(ls.drop_first())) + l.push('\n'));
    }
}

/// A fresh copy of a section.
fn copy_section(sec: &Section) -> (r: Section)
    ensures
        r.deep_view() == sec.deep_view(),
{
    let tv = str_chars(sec.title.as_str());
    let t = chars_to_string(&tv);
    let mut ls: Vec<String> = Vec::new();
    let n = sec.lines.len();
    let mut i: usize = 0;
    while i < n
        invariant
            i <= n,
            n == sec.lines@.len(),
            ls.deep_view() == sec.lines.deep_view().take(i as int),
        decreases n - i,
    {
        let lv = str_chars(sec.lines[i].as_str());
        let one = chars_to_string(&lv);
        let ghost pre = ls.deep_view();
        ls.push(one);
        proof {
            assert(ls.deep_view() =~~= pre.push(sec.lines@[i as int]@));
            assert(sec.lines.deep_view().take(i + 1) =~~= sec.lines.deep_view().take(
                i as int,
            ).push(sec.lines@[i as int]@));
        }
        i += 1;
    }
    proof {
        assert(sec.lines.deep_view().take(n as int) =~~= sec.lines.deep_view());
    }
    let r = Section { title: t, lines: ls };
    proof {
        assert(r.deep_view() =~~= sec.deep_view());
    }
    r
}

/// Case-insensitive comparison of a section title against a fixed name.
fn title_is(title: &String, name: &str) -> (r: bool)
    ensures
        r == (lower_spec(title@) == lower_spec(name@)),
{
    let a = str_chars(title.as_str());
    let b = str_chars(name);
    eq_ignore_ascii_case_chars(&a, &b)
}

/// One section rendered for assembly.
fn section_text_exec(sec: &Section, idx: usize, header: &Vec<char>) -> (r: Vec<char>)
    ensures
        r@ == section_text_spec(sec.deep_view(), idx as int, header@),
{
    let mut out: Vec<char> = Vec::new();
    if idx == 0 {
        push_all(&mut out, header);
    }
    if !sec.title.as_str().is_empty() {
        if idx > 0 {
            out.push('\n');
        }
        let h = crate::headings::format_heading(sec.title.as_str());
        let hv = str_chars(h.as_str());
        push_all(&mut out, &hv);
        out.push('\n');
    }
    let ghost head = out@;
    let n = sec.lines.len();
    let mut i: usize = 0;
    proof {
        assert(out@ =~= head + lines_blob(sec.lines.deep_view().take(0)));
    }
    while i < n
        invariant
            i <= n,
            n == sec.lines@.len(),
            out@ == head + lines_blob(sec.lines.deep_view().take(i as int)),
        decreases n - i,
    {
        let lv = str_chars(sec.lines[i].as_str());
        push_all(&mut out, &lv);
        out.push('\n');
        proof {
            let lsv = sec.lines.deep_view();
            assert(lsv.take(i + 1) =~~= lsv.take(i as int).push(lsv[i as int]));
            lemma_lines_blob_snoc(lsv.take(i as int), lsv[i as int]);
            assert(out@ =~= head + (lines_blob(lsv.take(i as int)) + lsv[i as int].push(
                '\n',
            )));
        }
        i += 1;
    }
    proof {
        assert(sec.lines.deep_view().take(n as int) =~~= sec.lines.deep_view());
        assert(out@ =~= section_text_spec(sec.deep_view(), idx as int, header@));
    }
    out
}

/// Converts a source document into its ordered, validated posts.  The
/// metadata header feeds the leading post and the closing permalink
/// section; each returned post passes the validator and respects the
/// length budget up to the numbering margin.
#[verifier::rlimit(100)]
pub fn generate_posts(input: String) -> (r: Result<Vec<String>, ValidationError>)
    ensures
        match generate_posts_spec(input@) {
            Result::Ok(ps) => r is Ok && r->Ok_0.deep_view() == ps,
            Result::Err(m) => r is Err && r->Err_0.0@ == m,
        },
        r is Ok ==> forall|k: int|
            0 <= k < r->Ok_0.deep_view().len() ==> is_valid_markdown(
                #[trigger] r->Ok_0.deep_view()[k],
            ),
        r is Ok ==> forall|k: int|
            0 <= k < r->Ok_0.deep_view().len() ==> utf8_len(#[trigger] r->Ok_0.deep_view()[k])
                <= TELEGRAM_LIMIT,
{
    let number = find_number(input.as_str());
    let date = find_date(input.as_str());
    let mut url: Option<Vec<char>> = None;
    match (&date, &number) {
        (Option::Some(d), Option::Some(n)) => {
            let dv = str_chars(d.as_str());
            let parts = split_char(&dv, '-');
            if parts.len() >= 3 {
                let mut u = str_chars("https://this-week-in-rust.org/blog/");
                push_all(&mut u, &parts[0]);
                u.push('/');
                push_all(&mut u, &parts[1]);
                u.push('/');
                push_all(&mut u, &parts[2]);
                push_str_chars(&mut u, "/this-week-in-rust-");
                let nv = str_chars(n.as_str());
                push_all(&mut u, &nv);
                u.push('/');
                proof {
                    assert(parts.deep_view()[0] == parts@[0]@);
                    assert(parts.deep_view()[1] == parts@[1]@);
                    assert(parts.deep_view()[2] == parts@[2]@);
                    assert(u@ =~= permalink_spec(d@, n@)->Some_0);
                }
                url = Some(u);
            }
        }
        _ => {}
    }
    let ghost url_spec: Option<Seq<char>> = match (find_date_spec(input@), find_number_spec(
        input@,
    )) {
        (Option::Some(d), Option::Some(n)) => permalink_spec(d, n),
        _ => None,
    };
    proof {
        match &url {
            Option::Some(u) => {
                assert(url_spec == Option::Some(u@));
            }
            Option::None => {
                assert(url_spec is None);
            }
        }
    }
    let iv = str_chars(input.as_str());
    let pat_ru = str_chars("_Полный выпуск: ссылка_");
    let emp: Vec<char> = Vec::new();
    proof {
        assert(emp@ =~= Seq::<char>::empty());
    }
    let input2 = replace_all(&iv, &pat_ru, &emp);
    let s2 = chars_to_string(&input2);
    let body = strip_header(s2.as_str());
    let secs0 = crate::parser::parse_sections(body.as_str());
    let ghost s0v = secs0.deep_view();
    let mut processed: Vec<Section> = Vec::new();
    let ns = secs0.len();
    let mut i: usize = 0;
    proof {
        assert(s0v.take(0) =~~= Seq::<SectionV>::empty());
        assert(processed.deep_view() =~~= process_run(s0v.take(0)));
    }
    while i < ns
        invariant
            i <= ns,
            ns == secs0@.len(),
            s0v == secs0.deep_view(),
            s0v.len() == ns,
            processed.deep_view() == process_run(s0v.take(i as int)),
        decreases ns - i,
    {
        let mut sec = copy_section(&secs0[i]);
        let ghost base = s0v[i as int];
        proof {
            assert(sec.deep_view() == base);
            assert(s0v.take(i + 1) =~~= s0v.take(i as int).push(base));
            assert(s0v.take(i + 1).drop_last() =~~= s0v.take(i as int));
            assert(s0v.take(i + 1).last() == base);
        }
        if title_is(&sec.title, "Jobs") && sec.lines.len() > 0 {
            proof {
                assert(base.lines.len() == sec.lines.deep_view().len());
                assert(sec.lines.deep_view().len() == sec.lines@.len());
                assert(base.lines.len() >= 1);
            }
            crate::postprocess::simplify_jobs_section(&mut sec);
            let chat = build_link_line("💼 [Rust Jobs chat](", "https://t.me/rust_jobs", ")");
            let feed = build_link_line(
                "📢 [Rust Jobs feed](",
                "https://t.me/rust_jobs_feed",
                ")",
            );
            let hh = build_link_line(
                "📝 [Rust HH jobs](",
                "https://t.me/rusthhjobs",
                ") — channel with Rust jobs from HeadHunter",
            );
            let ghost jlines = sec.lines.deep_view();
            proof {
                assert(jlines.len() == base.lines.len());
                assert(sec.lines@.len() == jlines.len());
                assert(sec.lines@.len() >= 1);
            }
            sec.lines.insert(1, chat);
            sec.lines.insert(2, feed);
            sec.lines.insert(3, hh);
            proof {
                assert(chat@ =~= jobs_chat_line());
                assert(feed@ =~= jobs_feed_line());
                assert(hh@ =~= jobs_hh_line());
                assert(sec.lines.deep_view() =~~= jlines.insert(1, jobs_chat_line()).insert(
                    2,
                    jobs_feed_line(),
                ).insert(3, jobs_hh_line()));
            }
        }
        if title_is(&sec.title, "Call for Participation; projects and speakers") {
            crate::postprocess::simplify_cfp_section(&mut sec);
        }
        crate::postprocess::simplify_quote_section(&mut sec);
        let ghost t = transform_section(base);
        proof {
            assert(sec.deep_view() =~~= t);
        }
        let ghost pre = processed.deep_view();
        if !title_is(&sec.title, "Upcoming Events") {
            processed.push(sec);
            proof {
                assert(processed.deep_view() =~~= pre.push(t));
            }
        }
        i += 1;
    }
    proof {
        assert(s0v.take(ns as int) =~~= s0v);
    }
    let mut secs = processed;
    match &url {
        Option::Some(u) => {
            let mut web = str_chars("🌐 [View web version](");
            let eu = url_escape_chars(u);
            push_all(&mut web, &eu);
            push_str_chars(&mut web, ") 🌐");
            let blank: Vec<char> = Vec::new();
            let mut link_lines: Vec<String> = Vec::new();
            link_lines.push(chars_to_string(&blank));
            link_lines.push(chars_to_string(&web));
            let empty_title: Vec<char> = Vec::new();
            let link_sec = Section {
                title: chars_to_string(&empty_title),
                lines: link_lines,
            };
            let ghost pre = secs.deep_view();
            proof {
                assert(link_sec.deep_view() =~~= link_section_spec(url_spec->Some_0));
            }
            secs.push(link_sec);
            proof {
                assert(secs.deep_view() =~~= pre.push(link_section_spec(url_spec->Some_0)));
            }
        }
        Option::None => {}
    }
    let mut header: Vec<char> = Vec::new();
    match &number {
        Option::Some(n) => {
            push_str_chars(&mut header, "\\#");
            let nv = str_chars(n.as_str());
            let en = escape_chars(&nv);
            push_all(&mut header, &en);
        }
        Option::None => {}
    }
    match &date {
        Option::Some(d) => {
            push_str_chars(&mut header, " — ");
            let dv = str_chars(d.as_str());
            let ed = escape_chars(&dv);
            push_all(&mut header, &ed);
        }
        Option::None => {}
    }
    if header.len() > 0 {
        push_str_chars(&mut header, "\n\n");
    }
    proof {
        assert(header@ =~= header_spec(find_number_spec(input@), find_date_spec(input@)));
    }
    let ghost secsv = secs.deep_view();
    let ghost headerv = header@;
    let mut posts: Vec<Vec<char>> = Vec::new();
    let mut current: Vec<char> = Vec::new();
    let mut cur_capped: usize = 0;
    let nsec = secs.len();
    let mut si: usize = 0;
    proof {
        assert((posts.deep_view(), current@) == assemble_upto(secsv, headerv, 0));
        assert(capped(utf8_len(current@), POST_BUDGET as nat) == 0);
    }
    while si < nsec
        invariant
            si <= nsec,
            nsec == secs@.len(),
            secsv == secs.deep_view(),
            secsv.len() == nsec,
            headerv == header@,
            cur_capped == capped(utf8_len(current@), POST_BUDGET as nat),
            (posts.deep_view(), current@) == assemble_upto(secsv, headerv, si as int),
        decreases nsec - si,
    {
        let st = section_text_exec(&secs[si], si, &header);
        let sec_capped = utf8_len_upto(&st, POST_BUDGET);
        let ghost prev = assemble_upto(secsv, headerv, si as int);
        proof {
            assert(secs@[si as int].deep_view() == secsv[si as int]);
            assert(st@ == section_text_spec(secsv[si as int], si as int, headerv));
            crate::text::lemma_capped_sum(
                utf8_len(current@),
                utf8_len(st@),
                POST_BUDGET as nat,
            );
        }
        if current.len() > 0 && cur_capped + sec_capped > POST_BUDGET {
            let ghost closed = current@;
            posts.push(current);
            current = st;
            cur_capped = sec_capped;
            proof {
                assert(posts.deep_view() =~~= prev.0.push(closed));
            }
        } else {
            let sum = cur_capped + sec_capped;
            cur_capped = if sum > POST_BUDGET {
                POST_BUDGET + 1
            } else {
                sum
            };
            let ghost curpre = current@;
            push_all(&mut current, &st);
            proof {
                crate::text::lemma_utf8_len_concat(curpre, st@);
            }
        }
        si += 1;
    }
    if current.len() > 0 {
        let ghost fin = assemble_upto(secsv, headerv, nsec as int);
        posts.push(current);
        proof {
            assert(posts.deep_view() =~~= fin.0.push(fin.1));
            assert(posts.deep_view() =~~= assembled_posts(secsv, headerv));
        }
    } else {
        proof {
            let fin = assemble_upto(secsv, headerv, nsec as int);
            assert(posts.deep_view() =~~= assembled_posts(secsv, headerv));
        }
    }
    let ghost assembledv = assembled_posts(secsv, headerv);
    let mut finals: Vec<Vec<char>> = Vec::new();
    let np = posts.len();
    let mut pi: usize = 0;
    proof {
        assert(finals.deep_view() =~~= resplit_upto(assembledv, 0));
    }
    while pi < np
        invariant
            pi <= np,
            np == posts@.len(),
            assembledv == posts.deep_view(),
            assembledv.len() == np,
            finals.deep_view() == resplit_upto(assembledv, pi as int),
        decreases np - pi,
    {
        let p = &posts[pi];
        let cap = utf8_len_upto(p, POST_BUDGET);
        let ghost front = resplit_upto(assembledv, pi as int);
        proof {
            assert(p.deep_view() == assembledv[pi as int]);
            assert(p@ =~= assembledv[pi as int]);
        }
        if cap > POST_BUDGET {
            let pieces = crate::splitter::split_posts_chars(p, POST_BUDGET);
            let npieces = pieces.len();
            let mut qi: usize = 0;
            while qi < npieces
                invariant
                    qi <= npieces,
                    npieces == pieces@.len(),
                    pieces.deep_view() == split_posts_spec(
                        assembledv[pi as int],
                        POST_BUDGET as nat,
                    ),
                    finals.deep_view() == front + pieces.deep_view().take(qi as int),
                decreases npieces - qi,
            {
                let one = crate::text::subvec(&pieces[qi], 0, pieces[qi].len());
                proof {
                    assert(pieces@[qi as int]@.subrange(0, pieces@[qi as int]@.len() as int)
                        =~= pieces@[qi as int]@);
                }
                let ghost fpre = finals.deep_view();
                finals.push(one);
                proof {
                    assert(finals.deep_view() =~~= fpre.push(pieces.deep_view()[qi as int]));
                    assert(pieces.deep_view().take(qi + 1) =~~= pieces.deep_view().take(
                        qi as int,
                    ).push(pieces.deep_view()[qi as int]));
                    assert(finals.deep_view() =~~= front + pieces.deep_view().take(qi + 1));
                }
                qi += 1;
            }
            proof {
                assert(pieces.deep_view().take(npieces as int) =~~= pieces.deep_view());
                assert(finals.deep_view() =~~= resplit_upto(assembledv, pi + 1));
            }
        } else {
            let one = crate::text::subvec(p, 0, p.len());
            proof {
                assert(p@.subrange(0, p@.len() as int) =~= p@);
            }
            let ghost fpre = finals.deep_view();
            finals.push(one);
            proof {
                assert(finals.deep_view() =~~= fpre.push(assembledv[pi as int]));
                assert(finals.deep_view() =~~= resplit_upto(assembledv, pi + 1));
            }
        }
        pi += 1;
    }
    let ghost finalsv = resplit_upto(assembledv, assembledv.len() as int);
    proof {
        assert(finals.deep_view() =~~= finalsv);
        lemma_resplit_bound(assembledv, assembledv.len() as int);
    }
    let total = finals.len();
    let mut result: Vec<String> = Vec::new();
    let nf = finals.len();
    let mut fi: usize = 0;
    proof {
        assert(generate_posts_spec(input@) == number_upto(finalsv, 0, total as int));
    }
    proof {
        assert(number_upto(finalsv, 0, total as int) == ({
            match number_upto(finalsv, 0, total as int) {
                Result::Ok(rest) => Result::<Seq<Seq<char>>, Seq<char>>::Ok(
                    result.deep_view() + rest,
                ),
                Result::Err(m) => Result::Err(m),
            }
        })) by {
            if let Result::Ok(rest) = number_upto(finalsv, 0, total as int) {
                assert(result.deep_view() + rest =~~= rest);
            }
        }
    }
    while fi < nf
        invariant
            fi <= nf,
            nf == total,
            total == finalsv.len(),
            finalsv == finals.deep_view(),
            generate_posts_spec(input@) == number_upto(finalsv, 0, total as int),
            number_upto(finalsv, 0, total as int) == ({
                match number_upto(finalsv, fi as int, total as int) {
                    Result::Ok(rest) => Result::<Seq<Seq<char>>, Seq<char>>::Ok(
                        result.deep_view() + rest,
                    ),
                    Result::Err(m) => Result::Err(m),
                }
            }),
        decreases nf - fi,
    {
        let p = &finals[fi];
        proof {
            assert(p.deep_view() == finalsv[fi as int]);
            assert(p@ =~= finalsv[fi as int]);
        }
        let mut p1 = crate::text::subvec(p, 0, p.len());
        proof {
            assert(p1@ =~= p@);
        }
        if p1.len() == 0 || p1[p1.len() - 1] != '\n' {
            p1.push('\n');
        }
        let core = strip_char_prefix_chars(&p1, '\n');
        let mut formatted: Vec<char> = Vec::new();
        if fi == 0 {
            push_all(&mut formatted, &core);
        } else {
            push_str_chars(&mut formatted, "*Part ");
            let d1 = dec_chars(fi + 1);
            push_all(&mut formatted, &d1);
            formatted.push('/');
            let d2 = dec_chars(total);
            push_all(&mut formatted, &d2);
            push_str_chars(&mut formatted, "*\n\n");
            push_all(&mut formatted, &core);
        }
        let ghost fspec = format_post_spec(finalsv[fi as int], fi as int, total as int);
        proof {
            assert(formatted@ =~= fspec);
        }
        let fs = chars_to_string(&formatted);
        let ghost respre = result.deep_view();
        match crate::validator::validate_telegram_markdown(fs.as_str()) {
            Result::Ok(_) => {
                result.push(fs);
                proof {
                    assert(is_valid_markdown(fspec));
                    assert(result.deep_view() =~~= respre.push(fspec));
                    if let Result::Ok(rest) = number_upto(finalsv, fi + 1, total as int) {
                        assert(respre + (seq![fspec] + rest) =~~= result.deep_view() + rest);
                    }
                }
            }
            Result::Err(e) => {
                let mut msg = str_chars("Generated post ");
                let d = dec_chars(fi + 1);
                push_all(&mut msg, &d);
                push_str_chars(&mut msg, " invalid: ");
                let em = str_chars(e.message().as_str());
                push_all(&mut msg, &em);
                proof {
                    assert(!is_valid_markdown(fspec));
                    assert(crate::validator::error_message(e) == verdict_msg(
                        validate_spec(fspec),
                    ));
                    assert(msg@ =~= gen_err_msg(fi as int, fspec));
                }
                return Err(ValidationError(chars_to_string(&msg)));
            }
        }
        fi += 1;
    }
    proof {
        assert(number_upto(finalsv, nf as int, total as int)
            == Result::<Seq<Seq<char>>, Seq<char>>::Ok(Seq::empty()));
        assert(result.deep_view() + Seq::<Seq<char>>::empty() =~~= result.deep_view());
        lemma_resplit_bound(assembledv, assembledv.len() as int);
        lemma_number_upto_props(finalsv, 0, total as int);
    }
    Ok(result)
}

/// One canonical community-link line.
fn build_link_line(head: &str, url: &str, tailpart: &str) -> (r: String)
    ensures
        r@ == head@ + url_escape_spec(url@) + tailpart@,
{
    let mut out = str_chars(head);
    let uv = str_chars(url);
    let eu = url_escape_chars(&uv);
    push_all(&mut out, &eu);
    push_str_chars(&mut out, tailpart);
    chars_to_string(&out)
}

} // verus!
