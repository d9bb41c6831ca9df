//! Section post-processors: section-specific rewrites applied after
//! parsing and before assembly.

use vstd::prelude::*;

use crate::escape::url_escape_spec;
use crate::escape::url_escape_chars;
use crate::headings::format_subheading_spec;
use crate::parser::Section;
use crate::parser::SectionV;
use crate::text::chars_eq;
use crate::text::chars_to_string;
use crate::text::contains_sub;
use crate::text::find_sub;
use crate::text::first_match;
use crate::text::lower_chars;
use crate::text::lower_spec;
use crate::text::push_all;
use crate::text::push_str_chars;
use crate::text::seq_contains_sub;
use crate::text::seq_starts_with;
use crate::text::starts_with_chars;
use crate::text::str_chars;
use crate::text::subvec;
use crate::text::trim_chars;
use crate::text::trim_spec;
use crate::text::trim_start_chars;
use crate::text::trim_start_spec;

verus! {

// ---------------------------------------------------------------------------
// Repeated-prefix stripping
// ---------------------------------------------------------------------------

/// `s` with every leading occurrence of `p` removed.
pub open spec fn strip_prefix_all(s: Seq<char>, p: Seq<char>) -> Seq<char>
    decreases s.len() when p.len() > 0
{
    if p.len() > 0 && seq_starts_with(s, p) && s.len() > 0 {
        strip_prefix_all(s.skip(p.len() as int), p)
    } else {
        s
    }
}

/// Removes every leading occurrence of `p` from `v`.
pub fn strip_prefix_all_chars(v: &Vec<char>, p: &Vec<char>) -> (r: Vec<char>)
    requires
        p@.len() > 0,
    ensures
        r@ == strip_prefix_all(v@, p@),
{
    let mut i: usize = 0;
    proof {
        assert(v@.skip(0) =~= v@);
    }
    while p.len() <= v.len() - i && matches_from(v, p, i)
        invariant
            i <= v@.len(),
            p@.len() > 0,
            strip_prefix_all(v@, p@) == strip_prefix_all(v@.skip(i as int), p@),
        decreases v@.len() - i,
    {
        proof {
            let rest = v@.skip(i as int);
            assert(rest.subrange(0, p@.len() as int) =~= v@.subrange(
                i as int,
                i + p@.len() as int,
            ));
            assert(seq_starts_with(rest, p@));
            assert(rest.skip(p@.len() as int) =~= v@.skip(i + p@.len() as int));
        }
        i += p.len();
    }
    proof {
        let rest = v@.skip(i as int);
        if i + p@.len() <= v@.len() {
            assert(rest.subrange(0, p@.len() as int) =~= v@.subrange(
                i as int,
                i + p@.len() as int,
            ));
        }
        assert(!(seq_starts_with(rest, p@) && rest.len() > 0));
        assert(strip_prefix_all(rest, p@) == rest);
    }
    let r = subvec(v, i, v.len());
    proof {
        assert(r@ =~= v@.skip(i as int));
    }
    r
}

fn matches_from(v: &Vec<char>, p: &Vec<char>, at: usize) -> (r: bool)
    requires
        at + p@.len() <= v@.len(),
    ensures
        r == (v@.subrange(at as int, at + p@.len() as int) == p@),
{
    crate::text::matches_at(v, p, at)
}

// ---------------------------------------------------------------------------
// Call-for-participation simplifier
// ---------------------------------------------------------------------------

/// One line of the CFP section processed: boilerplate dropped, task
/// bullets inside the projects subsection counted.
pub open spec fn cfp_run(
    lines: Seq<Seq<char>>,
) -> (Seq<Seq<char>>, bool)
    decreases lines.len()
{
    if lines.len() == 0 {
        (Seq::empty(), false)
    } else {
        let front = cfp_run(lines.drop_last());
        let l = lines.last();
        cfp_step(front.0, cfp_in_projects(lines.drop_last()), front.1, l)
    }
}

/// Whether the projects subsection is open after the given lines.
pub open spec fn cfp_in_projects(lines: Seq<Seq<char>>) -> bool
    decreases lines.len()
{
    if lines.len() == 0 {
        false
    } else if seq_starts_with(lines.last(), "**CFP \\- Projects**"@) {
        true
    } else if seq_starts_with(lines.last(), "**CFP \\- Events**"@) {
        false
    } else {
        cfp_in_projects(lines.drop_last())
    }
}

/// One CFP line applied to the cleaned list and the has-task flag.
pub open spec fn cfp_step(
    cleaned: Seq<Seq<char>>,
    in_projects: bool,
    has_task: bool,
    l: Seq<char>,
) -> (Seq<Seq<char>>, bool) {
    if seq_starts_with(l, "**CFP \\- Projects**"@) {
        (cleaned.push(l), has_task)
    } else if seq_starts_with(l, "**CFP \\- Events**"@) {
        (cleaned.push(l), has_task)
    } else if seq_contains_sub(l, "guidelines"@) && seq_contains_sub(l, "submit tasks"@) {
        (cleaned, has_task)
    } else if seq_starts_with(l, "Always wanted to contribute"@) || seq_starts_with(
        l,
        "Some of these tasks"@,
    ) || seq_starts_with(l, "Are you a new or experienced speaker"@) {
        (cleaned, has_task)
    } else if in_projects {
        if trim_spec(l) == "No Calls for participation were submitted this week."@ {
            (cleaned, has_task)
        } else {
            let t = trim_start_spec(l);
            let task = t.len() > 0 && (t[0] == '•' || t[0] == '*');
            (cleaned.push(l), has_task || task)
        }
    } else {
        (cleaned.push(l), has_task)
    }
}

/// The canonical fallback line shown when the projects subsection carries
/// no task bullets.
pub open spec fn cfp_fallback() -> Seq<char> {
    "No new tasks this week\\. [Instructions]("@ + url_escape_spec(
        "https://github.com/rust-lang/this-week-in-rust#call-for-participation-guidelines"@,
    ) + ")"@
}

/// The CFP section with boilerplate stripped and, when its projects
/// subsection holds no task bullet, the canonical fallback line appended.
pub open spec fn cfp_spec(sec: SectionV) -> SectionV {
    let run = cfp_run(sec.lines);
    SectionV {
        title: sec.title,
        lines: if run.1 {
            run.0
        } else {
            run.0.push(cfp_fallback())
        },
    }
}

/// A line the CFP rewrite may emit: the canonical fallback, or a line
/// free of the submission boilerplate — it starts with none of the three
/// guideline openings, and it mentions the guidelines and task submission
/// together only when it is one of the two subsection markers.
pub open spec fn cfp_line_ok(l: Seq<char>) -> bool {
    l == cfp_fallback() || (!seq_starts_with(l, "Always wanted to contribute"@)
        && !seq_starts_with(l, "Some of these tasks"@) && !seq_starts_with(
        l,
        "Are you a new or experienced speaker"@,
    ) && ((seq_contains_sub(l, "guidelines"@) && seq_contains_sub(l, "submit tasks"@))
        ==> seq_starts_with(l, "**CFP \\- Projects**"@) || seq_starts_with(
        l,
        "**CFP \\- Events**"@,
    )))
}

proof fn lemma_cfp_run_lines_ok(lines: Seq<Seq<char>>)
    ensures
        forall|k: int|
            0 <= k < cfp_run(lines).0.len() ==> cfp_line_ok(#[trigger] cfp_run(lines).0[k]),
    decreases lines.len(),
{
    reveal_strlit("**CFP \\- Projects**");
    reveal_strlit("**CFP \\- Events**");
    reveal_strlit("Always wanted to contribute");
    reveal_strlit("Some of these tasks");
    reveal_strlit("Are you a new or experienced speaker");
    if lines.len() > 0 {
        lemma_cfp_run_lines_ok(lines.drop_last());
        let l = lines.last();
        let front = cfp_run(lines.drop_last());
        let step = cfp_step(front.0, cfp_in_projects(lines.drop_last()), front.1, l);
        assert forall|k: int| 0 <= k < step.0.len() implies cfp_line_ok(
            #[trigger] step.0[k],
        ) by {
            if k < front.0.len() {
                assert(step.0[k] == front.0[k]);
            } else {
                assert(step.0[k] == l);
                if seq_starts_with(l, "**CFP \\- Projects**"@) || seq_starts_with(
                    l,
                    "**CFP \\- Events**"@,
                ) {
                    assert(l.subrange(0, "**CFP \\- Projects**"@.len() as int)[0] == l[0]
                        || l.subrange(0, "**CFP \\- Events**"@.len() as int)[0] == l[0]);
                    assert(l[0] == '*');
                    if seq_starts_with(l, "Always wanted to contribute"@) {
                        assert(l.subrange(0, "Always wanted to contribute"@.len() as int)[0]
                            == l[0]);
                        assert(false);
                    }
                    if seq_starts_with(l, "Some of these tasks"@) {
                        assert(l.subrange(0, "Some of these tasks"@.len() as int)[0] == l[0]);
                        assert(false);
                    }
                    if seq_starts_with(l, "Are you a new or experienced speaker"@) {
                        assert(l.subrange(
                            0,
                            "Are you a new or experienced speaker"@.len() as int,
                        )[0] == l[0]);
                        assert(false);
                    }
                }
            }
        }
    }
}

/// Law: every line the CFP rewrite keeps is free of the submission
/// boilerplate, and when the projects subsection keeps no task bullet the
/// canonical fallback line closes the section.
pub proof fn lemma_cfp_fallback_law(sec: SectionV)
    ensures
        forall|k: int|
            0 <= k < cfp_spec(sec).lines.len() ==> cfp_line_ok(
                #[trigger] cfp_spec(sec).lines[k],
            ),
        !cfp_run(sec.lines).1 ==> cfp_spec(sec).lines.len() > 0 && cfp_spec(
            sec,
        ).lines.last() == cfp_fallback(),
{
    lemma_cfp_run_lines_ok(sec.lines);
    let run = cfp_run(sec.lines);
    if !run.1 {
        assert forall|k: int| 0 <= k < run.0.push(cfp_fallback()).len() implies cfp_line_ok(
            #[trigger] run.0.push(cfp_fallback())[k],
        ) by {
            if k < run.0.len() {
                assert(run.0.push(cfp_fallback())[k] == run.0[k]);
            } else {
                assert(run.0.push(cfp_fallback())[k] == cfp_fallback());
            }
        }
    }
}

/// Strips submission boilerplate from the call-for-participation section
/// and appends the canonical fallback when no task is listed.
pub fn simplify_cfp_section(section: &mut Section)
    ensures
        final(section)@ == cfp_spec(old(section)@),
{
    let pat_projects = str_chars("**CFP \\- Projects**");
    let pat_events = str_chars("**CFP \\- Events**");
    let pat_guidelines = str_chars("guidelines");
    let pat_submit = str_chars("submit tasks");
    let pat_always = str_chars("Always wanted to contribute");
    let pat_some = str_chars("Some of these tasks");
    let pat_speaker = str_chars("Are you a new or experienced speaker");
    let pat_nocalls = str_chars("No Calls for participation were submitted this week.");
    let mut cleaned: Vec<String> = Vec::new();
    let mut in_projects: bool = false;
    let mut has_task: bool = false;
    let n = section.lines.len();
    let mut i: usize = 0;
    let ghost lv = section.lines.deep_view();
    proof {
        assert(lv.take(0) =~~= Seq::<Seq<char>>::empty());
        assert(cleaned.deep_view() =~~= Seq::<Seq<char>>::empty());
    }
    while i < n
        invariant
            i <= n,
            n == section.lines@.len(),
            lv == section.lines.deep_view(),
            lv.len() == n,
            pat_projects@ == "**CFP \\- Projects**"@,
            pat_events@ == "**CFP \\- Events**"@,
            pat_guidelines@ == "guidelines"@,
            pat_submit@ == "submit tasks"@,
            pat_always@ == "Always wanted to contribute"@,
            pat_some@ == "Some of these tasks"@,
            pat_speaker@ == "Are you a new or experienced speaker"@,
            pat_nocalls@ == "No Calls for participation were submitted this week."@,
            (cleaned.deep_view(), has_task) == cfp_run(lv.take(i as int)),
            in_projects == cfp_in_projects(lv.take(i as int)),
        decreases n - i,
    {
        let line = &section.lines[i];
        let l = str_chars(line.as_str());
        let ghost glv = lv[i as int];
        let ghost pre = cleaned.deep_view();
        let ghost pre_task = has_task;
        let ghost pre_proj = in_projects;
        proof {
            assert(glv == l@);
            assert(lv.take(i + 1) =~~= lv.take(i as int).push(glv));
            assert(lv.take(i + 1).drop_last() =~~= lv.take(i as int));
            assert(lv.take(i + 1).last() == glv);
        }
        if starts_with_chars(&l, &pat_projects) {
            in_projects = true;
            cleaned.push(chars_to_string(&l));
        } else if starts_with_chars(&l, &pat_events) {
            in_projects = false;
            cleaned.push(chars_to_string(&l));
        } else if contains_sub(&l, &pat_guidelines) && contains_sub(&l, &pat_submit) {
        } else if starts_with_chars(&l, &pat_always) || starts_with_chars(&l, &pat_some)
            || starts_with_chars(&l, &pat_speaker) {
        } else if in_projects {
            let t = trim_chars(&l);
            if chars_eq(&t, &pat_nocalls) {
            } else {
                let ts = trim_start_chars(&l);
                if ts.len() > 0 && (ts[0] == '•' || ts[0] == '*') {
                    has_task = true;
                }
                cleaned.push(chars_to_string(&l));
            }
        } else {
            cleaned.push(chars_to_string(&l));
        }
        proof {
            assert(cfp_run(lv.take(i + 1)) == cfp_step(pre, pre_proj, pre_task, glv));
            assert(cleaned.deep_view() =~~= cfp_step(pre, pre_proj, pre_task, glv).0);
            assert(cfp_in_projects(lv.take(i + 1)) == in_projects);
        }
        i += 1;
    }
    proof {
        assert(lv.take(n as int) =~~= lv);
    }
    if !has_task {
        let mut msg = str_chars("No new tasks this week\\. [Instructions](");
        let u = str_chars(
            "https://github.com/rust-lang/this-week-in-rust#call-for-participation-guidelines",
        );
        let eu = url_escape_chars(&u);
        push_all(&mut msg, &eu);
        push_str_chars(&mut msg, ")");
        let ghost pre = cleaned.deep_view();
        cleaned.push(chars_to_string(&msg));
        proof {
            assert(msg@ =~= cfp_fallback());
            assert(cleaned.deep_view() =~~= pre.push(cfp_fallback()));
        }
    }
    section.lines = cleaned;
    proof {
        assert(section@ =~~= cfp_spec(old(section)@));
    }
}


// ---------------------------------------------------------------------------
// Quote-of-the-week simplifier
// ---------------------------------------------------------------------------

/// One line of the quote section applied to the cleaned list and the
/// inside-quote flag.
pub open spec fn quote_step(
    cleaned: Seq<Seq<char>>,
    in_quote: bool,
    l: Seq<char>,
) -> (Seq<Seq<char>>, bool) {
    if seq_contains_sub(l, "Quote of the Week"@) {
        (cleaned.push(format_subheading_spec("Quote of the Week"@)), true)
    } else if in_quote {
        let lower = lower_spec(l);
        if seq_contains_sub(lower, "please submit quotes"@) || seq_starts_with(
            lower,
            "thanks to"@,
        ) || seq_starts_with(lower, "despite "@) {
            (cleaned, true)
        } else if trim_start_spec(l).len() > 0 && trim_start_spec(l)[0] == '–' {
            (cleaned.push(trim_start_spec(l)).push(Seq::empty()), false)
        } else {
            let content = trim_start_spec(strip_prefix_all(l, "\\>"@));
            (cleaned.push(seq!['_'] + content + seq!['_']), true)
        }
    } else {
        (cleaned.push(l), in_quote)
    }
}

/// The quote section folded line by line.
pub open spec fn quote_run(lines: Seq<Seq<char>>) -> (Seq<Seq<char>>, bool)
    decreases lines.len()
{
    if lines.len() == 0 {
        (Seq::empty(), false)
    } else {
        let front = quote_run(lines.drop_last());
        quote_step(front.0, front.1, lines.last())
    }
}

/// The quote-of-the-week rewrite: the quote body in italics, submission
/// and attribution boilerplate dropped, one blank line after the
/// attribution.
pub open spec fn quote_spec(sec: SectionV) -> SectionV {
    SectionV { title: sec.title, lines: quote_run(sec.lines).0 }
}

/// Converts a quoted block into italic lines, drops submission
/// boilerplate, and normalizes the spacing around the attribution.
pub fn simplify_quote_section(section: &mut Section)
    ensures
        final(section)@ == quote_spec(old(section)@),
{
    let pat_qotw = str_chars("Quote of the Week");
    let pat_submit = str_chars("please submit quotes");
    let pat_thanks = str_chars("thanks to");
    let pat_despite = str_chars("despite ");
    let pat_quote_mark = str_chars("\\>");
    let mut cleaned: Vec<String> = Vec::new();
    let mut in_quote: bool = false;
    let n = section.lines.len();
    let mut i: usize = 0;
    let ghost lv = section.lines.deep_view();
    proof {
        assert(lv.take(0) =~~= Seq::<Seq<char>>::empty());
        assert(cleaned.deep_view() =~~= Seq::<Seq<char>>::empty());
    }
    while i < n
        invariant
            i <= n,
            n == section.lines@.len(),
            lv == section.lines.deep_view(),
            lv.len() == n,
            pat_qotw@ == "Quote of the Week"@,
            pat_submit@ == "please submit quotes"@,
            pat_thanks@ == "thanks to"@,
            pat_despite@ == "despite "@,
            pat_quote_mark@ == "\\>"@,
            (cleaned.deep_view(), in_quote) == quote_run(lv.take(i as int)),
        decreases n - i,
    {
        let line = &section.lines[i];
        let l = str_chars(line.as_str());
        let ghost glv = lv[i as int];
        let ghost pre = cleaned.deep_view();
        let ghost pre_q = in_quote;
        proof {
            assert(glv == l@);
            assert(lv.take(i + 1) =~~= lv.take(i as int).push(glv));
            assert(lv.take(i + 1).drop_last() =~~= lv.take(i as int));
            assert(lv.take(i + 1).last() == glv);
        }
        if contains_sub(&l, &pat_qotw) {
            let sub = crate::headings::format_subheading("Quote of the Week");
            cleaned.push(sub);
            in_quote = true;
        } else if in_quote {
            let lower = lower_chars(&l);
            if contains_sub(&lower, &pat_submit) || starts_with_chars(&lower, &pat_thanks)
                || starts_with_chars(&lower, &pat_despite) {
            } else {
                let ts = trim_start_chars(&l);
                if ts.len() > 0 && ts[0] == '–' {
                    cleaned.push(chars_to_string(&ts));
                    let blank: Vec<char> = Vec::new();
                    cleaned.push(chars_to_string(&blank));
                    in_quote = false;
                } else {
                    proof {
                        reveal_strlit("\\>");
                    }
                    let stripped = strip_prefix_all_chars(&l, &pat_quote_mark);
                    let content = trim_start_chars(&stripped);
                    let mut italic: Vec<char> = Vec::new();
                    italic.push('_');
                    push_all(&mut italic, &content);
                    italic.push('_');
                    proof {
                        assert(italic@ =~= seq!['_'] + trim_start_spec(
                            strip_prefix_all(glv, "\\>"@),
                        ) + seq!['_']);
                    }
                    cleaned.push(chars_to_string(&italic));
                }
            }
        } else {
            cleaned.push(chars_to_string(&l));
        }
        proof {
            assert(quote_run(lv.take(i + 1)) == quote_step(pre, pre_q, glv));
            assert(cleaned.deep_view() =~~= quote_step(pre, pre_q, glv).0);
        }
        i += 1;
    }
    proof {
        assert(lv.take(n as int) =~~= lv);
    }
    section.lines = cleaned;
    proof {
        assert(section@ =~~= quote_spec(old(section)@));
    }
}

// ---------------------------------------------------------------------------
// Jobs simplifier
// ---------------------------------------------------------------------------

/// One jobs line: a known hiring-thread link becomes the compact
/// canonical line; anything else passes unchanged.
pub open spec fn jobs_line_spec(l: Seq<char>) -> Seq<char> {
    let pat = "Hiring thread on r/rust]("@;
    match first_match(l, pat, 0) {
        Option::Some(i) => {
            let url_start = i + pat.len() as int;
            match first_match(l, seq![')'], url_start) {
                Option::Some(j) => "🦀 [Rust Job Reddit Thread]("@ + url_escape_spec(
                    l.subrange(url_start, j),
                ) + ")"@,
                Option::None => l,
            }
        }
        Option::None => l,
    }
}

/// The jobs section with every hiring-thread link rewritten to the
/// compact canonical line.
pub open spec fn jobs_spec(sec: SectionV) -> SectionV {
    SectionV { title: sec.title, lines: sec.lines.map_values(|l: Seq<char>| jobs_line_spec(l)) }
}

/// Rewrites the known hiring-thread link into the compact canonical line.
pub fn simplify_jobs_section(section: &mut Section)
    ensures
        final(section)@ == jobs_spec(old(section)@),
{
    let pat = str_chars("Hiring thread on r/rust](");
    let close: Vec<char> = vec![')'];
    proof {
        assert(close@ =~= seq![')']);
    }
    let mut cleaned: Vec<String> = Vec::new();
    let n = section.lines.len();
    let mut i: usize = 0;
    let ghost lv = section.lines.deep_view();
    proof {
        assert(cleaned.deep_view() =~~= lv.take(0).map_values(|l: Seq<char>| jobs_line_spec(l)));
    }
    while i < n
        invariant
            i <= n,
            n == section.lines@.len(),
            lv == section.lines.deep_view(),
            lv.len() == n,
            pat@ == "Hiring thread on r/rust]("@,
            close@ == seq![')'],
            cleaned.deep_view() == lv.take(i as int).map_values(
                |l: Seq<char>| jobs_line_spec(l),
            ),
        decreases n - i,
    {
        let line = &section.lines[i];
        let l = str_chars(line.as_str());
        let ghost glv = lv[i as int];
        let ghost pre = cleaned.deep_view();
        proof {
            assert(glv == l@);
        }
        let ll = l.len();
        match find_sub(&l, &pat, 0) {
            Option::Some(start) => {
                let url_start = start + pat.len();
                match find_sub(&l, &close, url_start) {
                    Option::Some(end) => {
                        let url = subvec(&l, url_start, end);
                        let mut out = str_chars("🦀 [Rust Job Reddit Thread](");
                        let eu = url_escape_chars(&url);
                        push_all(&mut out, &eu);
                        push_str_chars(&mut out, ")");
                        cleaned.push(chars_to_string(&out));
                        proof {
                            assert(out@ =~= jobs_line_spec(glv));
                        }
                    }
                    Option::None => {
                        cleaned.push(chars_to_string(&l));
                    }
                }
            }
            Option::None => {
                cleaned.push(chars_to_string(&l));
            }
        }
        proof {
            assert(lv.take(i + 1).map_values(|x: Seq<char>| jobs_line_spec(x)) =~~= lv.take(
                i as int,
            ).map_values(|x: Seq<char>| jobs_line_spec(x)).push(jobs_line_spec(glv)));
            assert(cleaned.deep_view() =~~= pre.push(jobs_line_spec(glv)));
        }
        i += 1;
    }
    proof {
        assert(lv.take(n as int) =~~= lv);
    }
    section.lines = cleaned;
    proof {
        assert(section@ =~~= jobs_spec(old(section)@));
    }
}

} // verus!
