//! Length-bounded splitter: cuts over-long text into adjacent chunks while
//! keeping escape sequences and code fences intact across the cuts.
//!
//! The text is consumed line by line into a running buffer; before a line
//! would push the buffer past the byte budget, the buffer is closed as one
//! chunk.  Escaping is guarded across every forced cut: a lone trailing
//! escape marker moves to the start of the next chunk, and a structural
//! reserved character at the start of a new chunk receives an escape
//! marker.  A line too long for a fresh chunk is cut character by
//! character under the same rules.  A cut never leaves a fenced code block
//! open: the closing fence is counted against the budget while the buffer
//! fills, the chunk is closed with a fence, and the next chunk reopens it.

use vstd::prelude::*;

use crate::escape::is_line_reserved;
use crate::escape::line_reserved_char;
use crate::text::char_utf8_width;
use crate::text::char_width;
use crate::text::chars_to_string;
use crate::text::lemma_utf8_len_concat;
use crate::text::lemma_utf8_len_push;
use crate::text::lines_of;
use crate::text::split_lines;
use crate::text::str_chars;
use crate::text::trim_spec;
use crate::text::trim_chars;
use crate::text::utf8_len;

verus! {

/// The running state of the splitter.
pub struct SplitSt {
    /// Finished chunks, in order.
    pub posts: Seq<Seq<char>>,
    /// The open buffer.
    pub current: Seq<char>,
    /// A cut stranded a trailing escape marker: the next line is joined
    /// without a separating line break.
    pub join_next: bool,
    /// The buffer is inside a fenced code block.
    pub fence: bool,
}

pub open spec fn split_init() -> SplitSt {
    SplitSt { posts: Seq::empty(), current: Seq::empty(), join_next: false, fence: false }
}

/// Bytes a pending fence close will need.
pub open spec fn close_cost(fence: bool) -> nat {
    if fence {
        4
    } else {
        0
    }
}

/// The buffer closed as a chunk: an open fence is closed first.
pub open spec fn finish_chunk(chunk: Seq<char>, fence: bool) -> Seq<char> {
    if fence {
        chunk + seq!['\n', '`', '`', '`']
    } else {
        chunk
    }
}

/// The opening a fresh chunk needs inside a fence.
pub open spec fn reopen(fence: bool) -> Seq<char> {
    if fence {
        seq!['`', '`', '`', '\n']
    } else {
        Seq::empty()
    }
}

/// One byte for the escape marker a line starting with a structural
/// reserved character will need at the start of a chunk.
pub open spec fn line_lead(line: Seq<char>) -> nat {
    if line.len() > 0 && is_line_reserved(line[0]) && line[0] != '\\' {
        1
    } else {
        0
    }
}

/// One step of the character-by-character cut of an over-long line.
pub open spec fn long_step(
    posts: Seq<Seq<char>>,
    chunk: Seq<char>,
    c: char,
    limit: nat,
    fence: bool,
) -> (Seq<Seq<char>>, Seq<char>) {
    if utf8_len(chunk) + char_utf8_width(c) + close_cost(fence) > limit {
        if !fence && chunk.len() > 1 && chunk.last() == '\\' {
            (posts.push(chunk.drop_last()), seq!['\\', c])
        } else if !fence && is_line_reserved(c) {
            (posts.push(chunk), seq!['\\', c])
        } else {
            (posts.push(finish_chunk(chunk, fence)), reopen(fence).push(c))
        }
    } else {
        (posts, chunk.push(c))
    }
}

/// The character-by-character cut of an over-long line.
pub open spec fn long_run(
    posts: Seq<Seq<char>>,
    chunk: Seq<char>,
    line: Seq<char>,
    limit: nat,
    fence: bool,
) -> (Seq<Seq<char>>, Seq<char>)
    decreases line.len()
{
    if line.len() == 0 {
        (posts, chunk)
    } else {
        let next = long_step(posts, chunk, line[0], limit, fence);
        long_run(next.0, next.1, line.skip(1), limit, fence)
    }
}

pub proof fn lemma_long_run_snoc(
    posts: Seq<Seq<char>>,
    chunk: Seq<char>,
    line: Seq<char>,
    c: char,
    limit: nat,
    fence: bool,
)
    ensures
        long_run(posts, chunk, line.push(c), limit, fence) == ({
            let mid = long_run(posts, chunk, line, limit, fence);
            long_step(mid.0, mid.1, c, limit, fence)
        }),
    decreases line.len(),
{
    if line.len() == 0 {
        assert(line.push(c)[0] == c);
        assert(line.push(c).skip(1) =~= Seq::<char>::empty());
        let next = long_step(posts, chunk, c, limit, fence);
        assert(long_run(posts, chunk, line.push(c), limit, fence) == long_run(
            next.0,
            next.1,
            line.push(c).skip(1),
            limit,
            fence,
        ));
        assert(long_run(next.0, next.1, Seq::<char>::empty(), limit, fence) == next);
        assert(long_run(posts, chunk, line, limit, fence) == (posts, chunk));
    } else {
        assert(line.push(c)[0] == line[0]);
        assert(line.push(c).skip(1) =~= line.skip(1).push(c));
        let next = long_step(posts, chunk, line[0], limit, fence);
        lemma_long_run_snoc(next.0, next.1, line.skip(1), c, limit, fence);
        assert(long_run(posts, chunk, line.push(c), limit, fence) == long_run(
            next.0,
            next.1,
            line.skip(1).push(c),
            limit,
            fence,
        ));
        assert(long_run(posts, chunk, line, limit, fence) == long_run(
            next.0,
            next.1,
            line.skip(1),
            limit,
            fence,
        ));
    }
}

/// A line that cannot fit in a fresh chunk together with its opening and
/// closing overhead is cut character by character.
pub open spec fn line_over(line: Seq<char>, limit: nat, fence: bool, join: bool) -> bool {
    utf8_len(line) + (if fence {
        8nat
    } else {
        line_lead(line)
    }) + (if join {
        1nat
    } else {
        0nat
    }) > limit
}

/// One line of input applied to the splitter state.
pub open spec fn split_line_step(st: SplitSt, line: Seq<char>, limit: nat) -> SplitSt {
    if trim_spec(line) == seq!['`', '`', '`'] {
        // A fence line toggles the fence; before it and the close its new
        // state needs would overflow the budget, the buffer is closed.
        let closing = st.fence;
        let extra: nat = if st.current.len() == 0 {
            3
        } else {
            4
        };
        let reserve_after: nat = if closing {
            0
        } else {
            4
        };
        let st1 = if st.current.len() != 0 && utf8_len(st.current) + extra + reserve_after
            > limit {
            if closing {
                SplitSt {
                    posts: st.posts.push(finish_chunk(st.current, true)),
                    current: seq!['`', '`', '`'],
                    ..st
                }
            } else {
                SplitSt { posts: st.posts.push(st.current), current: Seq::empty(), ..st }
            }
        } else if st.current.len() != 0 {
            SplitSt { current: st.current.push('\n'), ..st }
        } else {
            st
        };
        SplitSt {
            current: st1.current + seq!['`', '`', '`'],
            fence: !st1.fence,
            ..st1
        }
    } else if line_over(line, limit, st.fence, st.join_next) {
        // An over-long line: close the buffer, then cut character by
        // character, seeding the first chunk with a fence reopening or
        // the escape marker its first character needs.
        let posts1 = if st.current.len() != 0 {
            st.posts.push(finish_chunk(st.current, st.fence))
        } else {
            st.posts
        };
        let seed = reopen(st.fence) + (if !st.fence && line_lead(line) == 1 {
            seq!['\\']
        } else {
            Seq::<char>::empty()
        });
        let cut = long_run(posts1, seed, line, limit, st.fence);
        SplitSt { posts: cut.0, current: cut.1, join_next: false, ..st }
    } else {
        let new_len: nat = if st.current.len() == 0 {
            utf8_len(line)
        } else if st.join_next {
            utf8_len(st.current) + utf8_len(line)
        } else {
            utf8_len(st.current) + 1 + utf8_len(line)
        };
        let eff: nat = new_len + close_cost(st.fence) + (if st.join_next {
            1nat
        } else {
            0nat
        });
        let st1 = if eff > limit && st.current.len() != 0 {
            if st.fence {
                SplitSt {
                    posts: st.posts.push(finish_chunk(st.current, true)),
                    current: seq!['`', '`', '`'],
                    ..st
                }
            } else if st.current.len() > 0 && st.current.last() == '\\' && 2 + utf8_len(line)
                <= limit {
                SplitSt {
                    posts: st.posts.push(st.current.drop_last()),
                    current: seq!['\\'],
                    join_next: true,
                    ..st
                }
            } else {
                SplitSt {
                    posts: st.posts.push(st.current),
                    current: Seq::empty(),
                    join_next: false,
                    ..st
                }
            }
        } else {
            st
        };
        let st2 = if st1.current.len() != 0 && !st1.join_next {
            SplitSt { current: st1.current.push('\n'), ..st1 }
        } else if st1.current.len() == 0 && line.len() > 0 && is_line_reserved(line[0])
            && line[0] != '\\' {
            SplitSt { current: seq!['\\'], ..st1 }
        } else {
            st1
        };
        let st3 = SplitSt { current: st2.current + line, ..st2 };
        if st3.join_next {
            SplitSt { current: st3.current.push('\n'), join_next: false, ..st3 }
        } else {
            st3
        }
    }
}

/// The splitter folded over a sequence of lines.
pub open spec fn split_run(st: SplitSt, ls: Seq<Seq<char>>, limit: nat) -> SplitSt
    decreases ls.len()
{
    if ls.len() == 0 {
        st
    } else {
        split_run(split_line_step(st, ls[0], limit), ls.drop_first(), limit)
    }
}

pub proof fn lemma_split_run_snoc(st: SplitSt, ls: Seq<Seq<char>>, line: Seq<char>, limit: nat)
    ensures
        split_run(st, ls.push(line), limit) == split_line_step(
            split_run(st, ls, limit),
            line,
            limit,
        ),
    decreases ls.len(),
{
    if ls.len() == 0 {
        assert(ls.push(line)[0] == line);
        assert(ls.push(line).drop_first() =~= Seq::<Seq<char>>::empty());
        assert(split_run(st, ls.push(line), limit) == split_run(
            split_line_step(st, line, limit),
            ls.push(line).drop_first(),
            limit,
        ));
        assert(split_run(split_line_step(st, line, limit), ls.push(line).drop_first(), limit)
            == split_line_step(st, line, limit));
        assert(split_run(st, ls, limit) == st);
    } else {
        assert(ls.push(line)[0] == ls[0]);
        assert(ls.push(line).drop_first() =~= ls.drop_first().push(line));
        lemma_split_run_snoc(split_line_step(st, ls[0], limit), ls.drop_first(), line, limit);
        assert(split_run(st, ls.push(line), limit) == split_run(
            split_line_step(st, ls[0], limit),
            ls.drop_first().push(line),
            limit,
        ));
        assert(split_run(st, ls, limit) == split_run(
            split_line_step(st, ls[0], limit),
            ls.drop_first(),
            limit,
        ));
    }
}

/// The chunks that splitting `text` under `limit` produces.
pub open spec fn split_posts_spec(text: Seq<char>, limit: nat) -> Seq<Seq<char>> {
    let st = split_run(split_init(), lines_of(text), limit);
    if st.current.len() != 0 {
        st.posts.push(finish_chunk(st.current, st.fence))
    } else {
        st.posts
    }
}

/// The byte budget any produced chunk respects: the budget itself once it
/// can hold the smallest fence-repaired chunk, and a fixed floor below
/// that.
pub open spec fn chunk_cap(limit: nat) -> nat {
    if limit >= 13 {
        limit
    } else {
        limit + 13
    }
}

pub open spec fn st_inv(st: SplitSt, limit: nat) -> bool {
    &&& utf8_len(st.current) + close_cost(st.fence) <= limit || utf8_len(st.current) <= 9
    &&& forall|k: int|
        0 <= k < st.posts.len() ==> utf8_len(#[trigger] st.posts[k]) <= chunk_cap(limit)
    &&& limit >= 4 ==> forall|k: int| 0 <= k < st.posts.len() ==> (#[trigger] st.posts[k]).len()
        > 0
}

proof fn lemma_small_seqs()
    ensures
        utf8_len(seq!['\n', '`', '`', '`']) == 4,
        utf8_len(seq!['`', '`', '`', '\n']) == 4,
        utf8_len(seq!['`', '`', '`']) == 3,
        utf8_len(seq!['\\']) == 1,
        utf8_len(Seq::<char>::empty()) == 0,
{
    assert(utf8_len(Seq::<char>::empty()) == 0);
    assert(seq!['`'].skip(1) =~= Seq::<char>::empty());
    assert(utf8_len(seq!['`']) == 1);
    assert(seq!['`', '`'].skip(1) =~= seq!['`']);
    assert(utf8_len(seq!['`', '`']) == 2);
    assert(seq!['`', '`', '`'].skip(1) =~= seq!['`', '`']);
    assert(utf8_len(seq!['`', '`', '`']) == 3);
    assert(seq!['\n', '`', '`', '`'].skip(1) =~= seq!['`', '`', '`']);
    assert(utf8_len(seq!['\n', '`', '`', '`']) == 4);
    assert(seq!['`', '\n'].skip(1) =~= seq!['\n']);
    assert(seq!['\n'].skip(1) =~= Seq::<char>::empty());
    assert(utf8_len(seq!['\n']) == 1);
    assert(utf8_len(seq!['`', '\n']) == 2);
    assert(seq!['`', '`', '\n'].skip(1) =~= seq!['`', '\n']);
    assert(utf8_len(seq!['`', '`', '\n']) == 3);
    assert(seq!['`', '`', '`', '\n'].skip(1) =~= seq!['`', '`', '\n']);
    assert(utf8_len(seq!['`', '`', '`', '\n']) == 4);
    assert(seq!['\\'].skip(1) =~= Seq::<char>::empty());
    assert(utf8_len(seq!['\\']) == 1);
}

proof fn lemma_long_run_inv(
    posts: Seq<Seq<char>>,
    chunk: Seq<char>,
    line: Seq<char>,
    limit: nat,
    fence: bool,
)
    requires
        forall|k: int| 0 <= k < posts.len() ==> utf8_len(#[trigger] posts[k]) <= chunk_cap(limit),
        limit >= 4 ==> forall|k: int| 0 <= k < posts.len() ==> (#[trigger] posts[k]).len() > 0,
        utf8_len(chunk) + close_cost(fence) <= limit || utf8_len(chunk) <= 9,
        limit >= 4 && fence ==> chunk.len() > 0,
    ensures
        ({
            let cut = long_run(posts, chunk, line, limit, fence);
            &&& forall|k: int|
                0 <= k < cut.0.len() ==> utf8_len(#[trigger] cut.0[k]) <= chunk_cap(limit)
            &&& limit >= 4 ==> forall|k: int| 0 <= k < cut.0.len() ==> (#[trigger] cut.0[k]).len()
                > 0
            &&& utf8_len(cut.1) + close_cost(fence) <= limit || utf8_len(cut.1) <= 9
            &&& limit >= 4 && fence ==> cut.1.len() > 0
        }),
    decreases line.len(),
{
    crate::text::lemma_utf8_len_bounds(chunk);
    lemma_small_seqs();
    if line.len() == 0 {
    } else {
        let c = line[0];
        let next = long_step(posts, chunk, c, limit, fence);
        assert(seq![c].skip(1) =~= Seq::<char>::empty());
        assert(utf8_len(seq![c]) == char_utf8_width(c));
        assert(seq!['\\', c].skip(1) =~= seq![c]);
        assert(utf8_len(seq!['\\', c]) == 1 + char_utf8_width(c));
        if utf8_len(chunk) + char_utf8_width(c) + close_cost(fence) > limit {
            if !fence && chunk.len() > 1 && chunk.last() == '\\' {
                assert(chunk =~= chunk.drop_last().push('\\'));
                lemma_utf8_len_push(chunk.drop_last(), '\\');
            } else {
                lemma_utf8_len_concat(chunk, seq!['\n', '`', '`', '`']);
                lemma_utf8_len_push(reopen(fence), c);
                crate::text::lemma_utf8_len_bounds(reopen(fence).push(c));
            }
        } else {
            lemma_utf8_len_push(chunk, c);
        }
        lemma_long_run_inv(next.0, next.1, line.skip(1), limit, fence);
    }
}

proof fn lemma_split_step_inv(st: SplitSt, line: Seq<char>, limit: nat)
    requires
        st_inv(st, limit),
        limit >= 4 && st.fence ==> st.current.len() > 0,
    ensures
        st_inv(split_line_step(st, line, limit), limit),
        limit >= 4 && split_line_step(st, line, limit).fence ==> split_line_step(
            st,
            line,
            limit,
        ).current.len() > 0,
{
    let ticks = seq!['`', '`', '`'];
    lemma_small_seqs();
    crate::text::lemma_utf8_len_bounds(st.current);
    if trim_spec(line) == ticks {
        lemma_utf8_len_concat(st.current, seq!['\n', '`', '`', '`']);
        lemma_utf8_len_push(st.current, '\n');
        let closing = st.fence;
        let extra: nat = if st.current.len() == 0 {
            3
        } else {
            4
        };
        let reserve_after: nat = if closing {
            0
        } else {
            4
        };
        let st1 = if st.current.len() != 0 && utf8_len(st.current) + extra + reserve_after
            > limit {
            if closing {
                SplitSt {
                    posts: st.posts.push(finish_chunk(st.current, true)),
                    current: ticks,
                    ..st
                }
            } else {
                SplitSt { posts: st.posts.push(st.current), current: Seq::empty(), ..st }
            }
        } else if st.current.len() != 0 {
            SplitSt { current: st.current.push('\n'), ..st }
        } else {
            st
        };
        lemma_utf8_len_concat(st1.current, ticks);
    } else if line_over(line, limit, st.fence, st.join_next) {
        lemma_utf8_len_concat(st.current, seq!['\n', '`', '`', '`']);
        let posts1 = if st.current.len() != 0 {
            st.posts.push(finish_chunk(st.current, st.fence))
        } else {
            st.posts
        };
        let seed = reopen(st.fence) + (if !st.fence && line_lead(line) == 1 {
            seq!['\\']
        } else {
            Seq::<char>::empty()
        });
        lemma_utf8_len_concat(
            reopen(st.fence),
            if !st.fence && line_lead(line) == 1 {
                seq!['\\']
            } else {
                Seq::<char>::empty()
            },
        );
        assert(utf8_len(seed) <= 9);
        lemma_long_run_inv(posts1, seed, line, limit, st.fence);
    } else {
        lemma_utf8_len_concat(st.current, seq!['\n', '`', '`', '`']);
        if st.current.len() > 0 && st.current.last() == '\\' {
            assert(st.current =~= st.current.drop_last().push('\\'));
            lemma_utf8_len_push(st.current.drop_last(), '\\');
        }
        let new_len: nat = if st.current.len() == 0 {
            utf8_len(line)
        } else if st.join_next {
            utf8_len(st.current) + utf8_len(line)
        } else {
            utf8_len(st.current) + 1 + utf8_len(line)
        };
        let eff: nat = new_len + close_cost(st.fence) + (if st.join_next {
            1nat
        } else {
            0nat
        });
        let st1 = if eff > limit && st.current.len() != 0 {
            if st.fence {
                SplitSt {
                    posts: st.posts.push(finish_chunk(st.current, true)),
                    current: ticks,
                    ..st
                }
            } else if st.current.len() > 0 && st.current.last() == '\\' && 2 + utf8_len(line)
                <= limit {
                SplitSt {
                    posts: st.posts.push(st.current.drop_last()),
                    current: seq!['\\'],
                    join_next: true,
                    ..st
                }
            } else {
                SplitSt {
                    posts: st.posts.push(st.current),
                    current: Seq::empty(),
                    join_next: false,
                    ..st
                }
            }
        } else {
            st
        };
        let st2 = if st1.current.len() != 0 && !st1.join_next {
            SplitSt { current: st1.current.push('\n'), ..st1 }
        } else if st1.current.len() == 0 && line.len() > 0 && is_line_reserved(line[0])
            && line[0] != '\\' {
            SplitSt { current: seq!['\\'], ..st1 }
        } else {
            st1
        };
        lemma_utf8_len_push(st1.current, '\n');
        lemma_utf8_len_concat(st2.current, line);
        lemma_utf8_len_push(st2.current + line, '\n');
    }
}

pub proof fn lemma_split_run_inv(st: SplitSt, ls: Seq<Seq<char>>, limit: nat)
    requires
        st_inv(st, limit),
        limit >= 4 && st.fence ==> st.current.len() > 0,
    ensures
        st_inv(split_run(st, ls, limit), limit),
        limit >= 4 && split_run(st, ls, limit).fence ==> split_run(st, ls, limit).current.len()
            > 0,
    decreases ls.len(),
{
    if ls.len() == 0 {
    } else {
        lemma_split_step_inv(st, ls[0], limit);
        lemma_split_run_inv(split_line_step(st, ls[0], limit), ls.drop_first(), limit);
    }
}

/// Law: every chunk that the splitter produces stays within the byte
/// budget — the budget itself once it is at least thirteen bytes — and,
/// above a four-byte budget, no chunk is empty.
pub proof fn lemma_split_posts_bound(text: Seq<char>, limit: nat)
    ensures
        forall|k: int|
            0 <= k < split_posts_spec(text, limit).len() ==> utf8_len(
                #[trigger] split_posts_spec(text, limit)[k],
            ) <= chunk_cap(limit),
        limit >= 4 ==> forall|k: int|
            0 <= k < split_posts_spec(text, limit).len() ==> (#[trigger] split_posts_spec(
                text,
                limit,
            )[k]).len() > 0,
{
    lemma_split_run_inv(split_init(), lines_of(text), limit);
    let st = split_run(split_init(), lines_of(text), limit);
    lemma_small_seqs();
    crate::text::lemma_utf8_len_bounds(st.current);
    if st.current.len() != 0 {
        lemma_utf8_len_concat(st.current, seq!['\n', '`', '`', '`']);
    }
}


/// Ghost view of the executable splitter state.
pub open spec fn st_of(
    posts: Seq<Seq<char>>,
    current: Seq<char>,
    join_next: bool,
    fence: bool,
) -> SplitSt {
    SplitSt { posts: posts, current: current, join_next: join_next, fence: fence }
}

/// Splits `v` into chunks within the byte budget, cutting between lines
/// where possible and inside a line character by character where
/// necessary, preserving escape and fence validity at every cut.
#[verifier::rlimit(100)]
pub fn split_posts_chars(v: &Vec<char>, limit: usize) -> (r: Vec<Vec<char>>)
    requires
        limit <= usize::MAX - 16,
    ensures
        r.deep_view() == split_posts_spec(v@, limit as nat),
        forall|k: int|
            0 <= k < r.deep_view().len() ==> utf8_len(#[trigger] r.deep_view()[k]) <= chunk_cap(
                limit as nat,
            ),
        limit >= 4 ==> forall|k: int|
            0 <= k < r.deep_view().len() ==> (#[trigger] r.deep_view()[k]).len() > 0,
{
    let ls = split_lines(v);
    let nls = ls.len();
    let mut posts: Vec<Vec<char>> = Vec::new();
    let mut current: Vec<char> = Vec::new();
    let mut cur_b: usize = 0;
    let mut join_next: bool = false;
    let mut fence: bool = false;
    let mut li: usize = 0;
    proof {
        assert(ls.deep_view().take(0) =~~= Seq::<Seq<char>>::empty());
        assert(posts.deep_view() =~~= Seq::<Seq<char>>::empty());
        assert(current@ =~= Seq::<char>::empty());
        assert(st_of(posts.deep_view(), current@, join_next, fence) == split_init());
        assert(split_run(split_init(), ls.deep_view().take(0), limit as nat) == split_init());
    }
    while li < nls
        invariant
            li <= nls,
            nls == ls@.len(),
            ls.deep_view() == lines_of(v@),
            limit <= usize::MAX - 16,
            cur_b == utf8_len(current@),
            st_of(posts.deep_view(), current@, join_next, fence) == split_run(
                split_init(),
                ls.deep_view().take(li as int),
                limit as nat,
            ),
        decreases nls - li,
    {
        let ghost lim = limit as nat;
        let ghost pre = st_of(posts.deep_view(), current@, join_next, fence);
        let ghost lv = ls.deep_view()[li as int];
        proof {
            lemma_split_run_inv(split_init(), ls.deep_view().take(li as int), lim);
            assert(st_inv(pre, lim));
            lemma_small_seqs();
            crate::text::lemma_utf8_len_bounds(pre.current);
            assert(ls.deep_view().take(li + 1) =~~= ls.deep_view().take(li as int).push(lv));
            lemma_split_run_snoc(split_init(), ls.deep_view().take(li as int), lv, lim);
        }
        let line = &ls[li];
        proof {
            assert(line.deep_view() == lv);
            assert(line@ =~= lv);
        }
        let trimmed = trim_chars(line);
        let fence_line = trimmed.len() == 3 && trimmed[0] == '`' && trimmed[1] == '`'
            && trimmed[2] == '`';
        proof {
            if fence_line {
                assert(trimmed@ =~= seq!['`', '`', '`']);
            } else {
                if trim_spec(lv) == seq!['`', '`', '`'] {
                    assert(trimmed@.len() == 3);
                    assert(trimmed@[0] == '`' && trimmed@[1] == '`' && trimmed@[2] == '`');
                    assert(false);
                }
            }
        }
        if fence_line {
            let closing = fence;
            let extra: usize = if current.len() == 0 {
                3
            } else {
                4
            };
            let reserve_after: usize = if closing {
                0
            } else {
                4
            };
            let over = sum3_exceeds_local(cur_b, extra, reserve_after, limit);
            if current.len() > 0 && over {
                if closing {
                    let ghost closed = current@;
                    current.push('\n');
                    current.push('`');
                    current.push('`');
                    current.push('`');
                    proof {
                        assert(current@ =~= finish_chunk(closed, true));
                    }
                    posts.push(current);
                    current = Vec::new();
                    current.push('`');
                    current.push('`');
                    current.push('`');
                    cur_b = 3;
                    proof {
                        assert(current@ =~= seq!['`', '`', '`']);
                        assert(posts.deep_view() =~~= pre.posts.push(
                            finish_chunk(pre.current, true),
                        ));
                    }
                } else {
                    posts.push(current);
                    current = Vec::new();
                    cur_b = 0;
                    proof {
                        assert(current@ =~= Seq::<char>::empty());
                        assert(posts.deep_view() =~~= pre.posts.push(pre.current));
                    }
                }
            } else if current.len() > 0 {
                current.push('\n');
                cur_b += 1;
                proof {
                    lemma_utf8_len_push(pre.current, '\n');
                }
            }
            let ghost mid = current@;
            current.push('`');
            current.push('`');
            current.push('`');
            cur_b += 3;
            fence = !fence;
            proof {
                assert(current@ =~= mid + seq!['`', '`', '`']);
                lemma_utf8_len_concat(mid, seq!['`', '`', '`']);
                let stepped = split_line_step(pre, lv, lim);
                assert(current@ == stepped.current);
                assert(posts.deep_view() =~~= stepped.posts);
                assert(st_of(posts.deep_view(), current@, join_next, fence) == stepped);
            }
        } else {
            let line_b_cap = crate::text::utf8_len_upto(line, limit);
            let lead: usize = if line.len() > 0 && line_reserved_char(line[0]) && line[0]
                != '\\' {
                1
            } else {
                0
            };
            proof {
                assert(lead == line_lead(lv));
            }
            let overhead: usize = (if fence {
                8
            } else {
                lead
            }) + (if join_next {
                1
            } else {
                0
            });
            let over_long = line_b_cap > limit || line_b_cap + overhead > limit;
            proof {
                assert(over_long == line_over(lv, lim, pre.fence, pre.join_next));
            }
            if over_long {
                if current.len() > 0 {
                    if fence {
                        current.push('\n');
                        current.push('`');
                        current.push('`');
                        current.push('`');
                    }
                    proof {
                        assert(current@ =~= finish_chunk(pre.current, pre.fence));
                    }
                    posts.push(current);
                    current = Vec::new();
                    cur_b = 0;
                }
                let ghost posts1 = posts.deep_view();
                proof {
                    assert(posts1 =~~= if pre.current.len() != 0 {
                        pre.posts.push(finish_chunk(pre.current, pre.fence))
                    } else {
                        pre.posts
                    });
                    lemma_utf8_len_concat(pre.current, seq!['\n', '`', '`', '`']);
                    assert(utf8_len(finish_chunk(pre.current, pre.fence)) <= chunk_cap(lim));
                }
                let mut chunk: Vec<char> = Vec::new();
                let mut chunk_b: usize = 0;
                if fence {
                    chunk.push('`');
                    chunk.push('`');
                    chunk.push('`');
                    chunk.push('\n');
                    chunk_b = 4;
                } else if lead == 1 {
                    chunk.push('\\');
                    chunk_b = 1;
                }
                let ghost seed = reopen(pre.fence) + (if !pre.fence && line_lead(lv) == 1 {
                    seq!['\\']
                } else {
                    Seq::<char>::empty()
                });
                proof {
                    assert(chunk@ =~= seed);
                }
                let mut ci: usize = 0;
                let n = line.len();
                proof {
                    assert(lv.take(0) =~= Seq::<char>::empty());
                    assert((posts.deep_view(), chunk@) == long_run(
                        posts1,
                        seed,
                        lv.take(0),
                        lim,
                        pre.fence,
                    ));
                }
                while ci < n
                    invariant
                        ci <= n,
                        n == lv.len(),
                        line@ == lv,
                        lim == limit as nat,
                        limit <= usize::MAX - 16,
                        chunk_b == utf8_len(chunk@),
                        utf8_len(chunk@) + close_cost(fence) <= lim || utf8_len(chunk@) <= 9,
                        forall|k: int|
                            0 <= k < posts1.len() ==> utf8_len(#[trigger] posts1[k])
                                <= chunk_cap(lim),
                        (posts.deep_view(), chunk@) == long_run(
                            posts1,
                            seed,
                            lv.take(ci as int),
                            lim,
                            fence,
                        ),
                    decreases n - ci,
                {
                    let ghost chunk_pre = chunk@;
                    let ghost posts_pre = posts.deep_view();
                    proof {
                        crate::text::lemma_utf8_len_bounds(chunk_pre);
                        lemma_small_seqs();
                        assert(lv.take(ci + 1) =~= lv.take(ci as int).push(lv[ci as int]));
                        lemma_long_run_snoc(
                            posts1,
                            seed,
                            lv.take(ci as int),
                            lv[ci as int],
                            lim,
                            fence,
                        );
                    }
                    let c = line[ci];
                    let w = char_width(c);
                    let close: usize = if fence {
                        4
                    } else {
                        0
                    };
                    proof {
                        assert(seq![c].skip(1) =~= Seq::<char>::empty());
                        assert(utf8_len(seq![c]) == char_utf8_width(c));
                        assert(seq!['\\', c].skip(1) =~= seq![c]);
                        assert(utf8_len(seq!['\\', c]) == 1 + char_utf8_width(c));
                    }
                    if sum3_exceeds_local(chunk_b, w, close, limit) {
                        if !fence && chunk.len() > 1 && chunk[chunk.len() - 1] == '\\' {
                            chunk.pop();
                            proof {
                                assert(chunk@ =~= chunk_pre.drop_last());
                                assert(chunk_pre =~= chunk_pre.drop_last().push('\\'));
                                lemma_utf8_len_push(chunk_pre.drop_last(), '\\');
                            }
                            posts.push(chunk);
                            chunk = Vec::new();
                            chunk.push('\\');
                            chunk.push(c);
                            chunk_b = 1 + w;
                            proof {
                                assert(chunk@ =~= seq!['\\', c]);
                                assert(posts.deep_view() =~~= posts_pre.push(
                                    chunk_pre.drop_last(),
                                ));
                            }
                        } else if !fence && line_reserved_char(c) {
                            posts.push(chunk);
                            chunk = Vec::new();
                            chunk.push('\\');
                            chunk.push(c);
                            chunk_b = 1 + w;
                            proof {
                                assert(chunk@ =~= seq!['\\', c]);
                                assert(posts.deep_view() =~~= posts_pre.push(chunk_pre));
                            }
                        } else {
                            if fence {
                                chunk.push('\n');
                                chunk.push('`');
                                chunk.push('`');
                                chunk.push('`');
                            }
                            proof {
                                assert(chunk@ =~= finish_chunk(chunk_pre, fence));
                            }
                            posts.push(chunk);
                            chunk = Vec::new();
                            if fence {
                                chunk.push('`');
                                chunk.push('`');
                                chunk.push('`');
                                chunk.push('\n');
                            }
                            chunk.push(c);
                            chunk_b = if fence {
                                4 + w
                            } else {
                                w
                            };
                            proof {
                                assert(chunk@ =~= reopen(fence).push(c));
                                lemma_utf8_len_push(reopen(fence), c);
                                assert(posts.deep_view() =~~= posts_pre.push(
                                    finish_chunk(chunk_pre, fence),
                                ));
                            }
                        }
                    } else {
                        chunk.push(c);
                        chunk_b += w;
                        proof {
                            lemma_utf8_len_push(chunk_pre, c);
                        }
                    }
                    proof {
                        let next = long_step(posts_pre, chunk_pre, lv[ci as int], lim, fence);
                        assert(chunk@ =~= next.1);
                        assert(posts.deep_view() =~~= next.0);
                        assert((posts.deep_view(), chunk@) == next);
                        if utf8_len(chunk@) + close_cost(fence) > lim {
                            crate::text::lemma_utf8_len_bounds(chunk@);
                            assert(utf8_len(chunk@) <= 9);
                        }
                    }
                    ci += 1;
                }
                current = chunk;
                cur_b = chunk_b;
                join_next = false;
                proof {
                    assert(lv.take(n as int) =~= lv);
                    let stepped = split_line_step(pre, lv, lim);
                    assert(current@ == stepped.current);
                    assert(posts.deep_view() =~~= stepped.posts);
                    assert(st_of(posts.deep_view(), current@, join_next, fence) == stepped);
                }
            } else {
                let line_b = line_b_cap;
                proof {
                    assert(line_b == utf8_len(lv));
                }
                let close: usize = if fence {
                    4
                } else {
                    0
                };
                let sep: usize = if current.len() == 0 || join_next {
                    0
                } else {
                    1
                };
                let j1: usize = if join_next {
                    1
                } else {
                    0
                };
                let base: usize = if current.len() == 0 {
                    0
                } else {
                    cur_b
                };
                let effl: u128 = base as u128 + sep as u128 + line_b as u128 + close as u128
                    + j1 as u128;
                let over = effl > limit as u128;
                let ghost new_len: nat = if pre.current.len() == 0 {
                    utf8_len(lv)
                } else if pre.join_next {
                    utf8_len(pre.current) + utf8_len(lv)
                } else {
                    utf8_len(pre.current) + 1 + utf8_len(lv)
                };
                let ghost eff: nat = new_len + close_cost(pre.fence) + (if pre.join_next {
                    1nat
                } else {
                    0nat
                });
                proof {
                    assert(over == (eff > lim));
                }
                if over && current.len() > 0 {
                    if fence {
                        let ghost closed = current@;
                        current.push('\n');
                        current.push('`');
                        current.push('`');
                        current.push('`');
                        proof {
                            assert(current@ =~= finish_chunk(closed, true));
                        }
                        posts.push(current);
                        current = Vec::new();
                        current.push('`');
                        current.push('`');
                        current.push('`');
                        cur_b = 3;
                        proof {
                            assert(current@ =~= seq!['`', '`', '`']);
                            assert(posts.deep_view() =~~= pre.posts.push(
                                finish_chunk(pre.current, true),
                            ));
                        }
                    } else if current[current.len() - 1] == '\\' && 2 + line_b <= limit {
                        current.pop();
                        proof {
                            assert(current@ =~= pre.current.drop_last());
                            assert(pre.current =~= pre.current.drop_last().push('\\'));
                            lemma_utf8_len_push(pre.current.drop_last(), '\\');
                        }
                        posts.push(current);
                        current = Vec::new();
                        current.push('\\');
                        cur_b = 1;
                        join_next = true;
                        proof {
                            assert(current@ =~= seq!['\\']);
                            assert(posts.deep_view() =~~= pre.posts.push(
                                pre.current.drop_last(),
                            ));
                        }
                    } else {
                        posts.push(current);
                        current = Vec::new();
                        cur_b = 0;
                        join_next = false;
                        proof {
                            assert(current@ =~= Seq::<char>::empty());
                            assert(posts.deep_view() =~~= pre.posts.push(pre.current));
                        }
                    }
                }
                let ghost st1c = current@;
                if current.len() > 0 && !join_next {
                    current.push('\n');
                    cur_b += 1;
                    proof {
                        lemma_utf8_len_push(st1c, '\n');
                    }
                } else if current.len() == 0 && line.len() > 0 {
                    let f = line[0];
                    if line_reserved_char(f) && f != '\\' {
                        current.push('\\');
                        cur_b = 1;
                        proof {
                            assert(current@ =~= seq!['\\']);
                        }
                    }
                }
                let ghost st2c = current@;
                crate::text::push_all(&mut current, line);
                proof {
                    lemma_utf8_len_concat(st2c, lv);
                }
                cur_b = cur_b + line_b;
                if join_next {
                    let ghost st3c = current@;
                    current.push('\n');
                    cur_b += 1;
                    join_next = false;
                    proof {
                        lemma_utf8_len_push(st3c, '\n');
                    }
                }
                proof {
                    let stepped = split_line_step(pre, lv, lim);
                    assert(current@ == stepped.current);
                    assert(posts.deep_view() =~~= stepped.posts);
                    assert(st_of(posts.deep_view(), current@, join_next, fence) == stepped);
                }
            }
        }
        li += 1;
    }
    proof {
        assert(ls.deep_view().take(nls as int) =~~= ls.deep_view());
    }
    if current.len() > 0 {
        let ghost fin = st_of(posts.deep_view(), current@, join_next, fence);
        if fence {
            current.push('\n');
            current.push('`');
            current.push('`');
            current.push('`');
        }
        proof {
            assert(current@ =~= finish_chunk(fin.current, fin.fence));
        }
        posts.push(current);
        proof {
            assert(posts.deep_view() =~~= fin.posts.push(finish_chunk(fin.current, fin.fence)));
            assert(posts.deep_view() =~~= split_posts_spec(v@, limit as nat));
            lemma_split_posts_bound(v@, limit as nat);
        }
        posts
    } else {
        proof {
            assert(posts.deep_view() =~~= split_posts_spec(v@, limit as nat));
            lemma_split_posts_bound(v@, limit as nat);
        }
        posts
    }
}

fn sum3_exceeds_local(a: usize, b: usize, c: usize, limit: usize) -> (r: bool)
    ensures
        r == (a + b + c > limit),
{
    crate::text::sum3_exceeds(a, b, c, limit)
}

/// Splits a long message into chunks that obey the byte budget, cutting at
/// line boundaries where possible and preserving escape and fence validity
/// across every cut.
pub fn split_posts(text: &str, limit: usize) -> (r: Vec<String>)
    requires
        limit <= usize::MAX - 16,
    ensures
        r.deep_view() == split_posts_spec(text@, limit as nat),
        forall|k: int|
            0 <= k < r.deep_view().len() ==> utf8_len(#[trigger] r.deep_view()[k]) <= chunk_cap(
                limit as nat,
            ),
        limit >= 4 ==> forall|k: int|
            0 <= k < r.deep_view().len() ==> (#[trigger] r.deep_view()[k]).len() > 0,
{
    let v = str_chars(text);
    let chunks = split_posts_chars(&v, limit);
    let mut r: Vec<String> = Vec::new();
    let mut i: usize = 0;
    while i < chunks.len()
        invariant
            i <= chunks@.len(),
            r.deep_view() == chunks.deep_view().take(i as int),
        decreases chunks@.len() - i,
    {
        let sres = chars_to_string(&chunks[i]);
        let ghost preview = r.deep_view();
        r.push(sres);
        proof {
            assert(r.deep_view() =~~= preview.push(chunks@[i as int].deep_view()));
            assert(chunks.deep_view().take(i + 1) =~~= chunks.deep_view().take(i as int).push(
                chunks@[i as int].deep_view(),
            ));
        }
        i += 1;
    }
    proof {
        assert(chunks.deep_view().take(chunks@.len() as int) =~~= chunks.deep_view());
    }
    r
}

} // verus!
