//! The reStructuredText explicit markup block joiner.
//!
//! A block starts with optional leading blanks and the literal marker `".. "`;
//! the rest of that line opens the block. A following line belongs to the
//! block only when it begins with a line break, the same leading blanks as
//! the first line, and three more spaces — the marker's width — so that its
//! content is indented at least to the column where the first line's content
//! began. The first line that is not indented far enough ends the block and
//! is left unconsumed. The captured lines are joined into one logical line
//! with exactly one space between fragments; a single-line block is returned
//! as a zero-copy view.

use crate::chars::{bytes_eq, is_blank};
use crate::error::{ParseError, ParseErrorKind};
use crate::text::Text;
use vstd::prelude::*;

verus! {

/// The number of leading blank (space or tab) bytes.
pub open spec fn indent_len(s: Seq<u8>) -> int
    decreases s.len(),
{
    if s.len() > 0 && is_blank(s[0]) {
        1 + indent_len(s.skip(1))
    } else {
        0
    }
}

/// True when, after its leading blanks, the input carries the literal
/// explicit markup start `".. "`.
pub open spec fn has_block_marker(s: Seq<u8>) -> bool {
    let w = indent_len(s);
    w + 3 <= s.len() && s[w] == 46 && s[w + 1] == 46 && s[w + 2] == 32
}

/// True when a line ends at `k`: a line feed, or a carriage return directly
/// followed by a line feed. A lone carriage return is ordinary content.
pub open spec fn is_line_break_at(s: Seq<u8>, k: int) -> bool {
    s[k] == 10 || (s[k] == 13 && k + 1 < s.len() && s[k + 1] == 10)
}

/// The first position at or after `j` where a line break starts, or the
/// input's length when the last line runs to the end.
pub open spec fn frag_end(s: Seq<u8>, j: int) -> int
    decreases s.len() - j,
{
    if j >= s.len() {
        s.len() as int
    } else if is_line_break_at(s, j) {
        j
    } else {
        frag_end(s, j + 1)
    }
}

/// How many bytes the line break starting at `e` occupies.
pub open spec fn break_len(s: Seq<u8>, e: int) -> int {
    if s[e] == 13 {
        2
    } else {
        1
    }
}

/// The fragments of the block whose first fragment starts at `j`, and the
/// position where the unconsumed input resumes. A continuation line must
/// begin, right after the line break, with `pre` — the first line's blanks
/// plus three spaces.
pub open spec fn block_tail(s: Seq<u8>, pre: Seq<u8>, j: int) -> (Seq<Seq<u8>>, int)
    decreases s.len() - j,
{
    let e = frag_end(s, j);
    let frag = s.subrange(j, e);
    if e >= s.len() {
        (seq![frag], s.len() as int)
    } else {
        let n = e + break_len(s, e);
        if j < n && n + pre.len() <= s.len() && s.subrange(n, n + pre.len()) == pre {
            let rest = block_tail(s, pre, n + pre.len());
            (seq![frag] + rest.0, rest.1)
        } else {
            (seq![frag], e)
        }
    }
}

/// One logical line: the fragments separated by exactly one space each.
pub open spec fn join_fragments(fs: Seq<Seq<u8>>) -> Seq<u8>
    decreases fs.len(),
{
    if fs.len() == 0 {
        Seq::empty()
    } else if fs.len() == 1 {
        fs[0]
    } else {
        fs[0] + seq![32u8] + join_fragments(fs.skip(1))
    }
}

/// The fragments and resume position of the explicit markup block at the
/// start of `s`, or `None` when the marker is absent.
pub open spec fn block_spec(s: Seq<u8>) -> Option<(Seq<Seq<u8>>, int)> {
    if has_block_marker(s) {
        let w = indent_len(s);
        Some(block_tail(s, s.subrange(0, w) + seq![32u8, 32u8, 32u8], w + 3))
    } else {
        None
    }
}

/// `indent_len` is exactly the length of the leading run of blanks.
proof fn lemma_indent_len_at(s: Seq<u8>, w: int)
    requires
        0 <= w <= s.len(),
        forall|k: int| 0 <= k < w ==> is_blank(s[k]),
        w == s.len() || !is_blank(s[w]),
    ensures
        indent_len(s) == w,
    decreases w,
{
    if w == 0 {
    } else {
        assert(is_blank(s[0]));
        assert(forall|k: int| 0 <= k < w - 1 ==> is_blank(s.skip(1)[k]));
        assert(w - 1 == s.skip(1).len() || !is_blank(s.skip(1)[w - 1]));
        lemma_indent_len_at(s.skip(1), w - 1);
    }
}

/// `frag_end` is exactly the first line-break position at or after `j`.
proof fn lemma_frag_end_at(s: Seq<u8>, j: int, e: int)
    requires
        0 <= j <= e <= s.len(),
        forall|k: int| j <= k < e ==> !is_line_break_at(s, k),
        e == s.len() || is_line_break_at(s, e),
    ensures
        frag_end(s, j) == e,
    decreases e - j,
{
    if j == e {
    } else {
        assert(!is_line_break_at(s, j));
        lemma_frag_end_at(s, j + 1, e);
    }
}

/// Appending a fragment extends the joined line by one space and the
/// fragment — except for the first fragment, which opens the line.
proof fn lemma_join_push(fs: Seq<Seq<u8>>, g: Seq<u8>)
    ensures
        join_fragments(fs.push(g)) == if fs.len() == 0 {
            g
        } else {
            join_fragments(fs) + seq![32u8] + g
        },
    decreases fs.len(),
{
    if fs.len() == 0 {
        assert(fs.push(g)[0] == g);
    } else if fs.len() == 1 {
        assert(fs.push(g)[0] == fs[0]);
        assert(fs.push(g).skip(1) =~= seq![g]);
        assert(join_fragments(seq![g]) == g);
    } else {
        assert(fs.push(g)[0] == fs[0]);
        assert(fs.push(g).skip(1) =~= fs.skip(1).push(g));
        lemma_join_push(fs.skip(1), g);
        assert(fs[0] + seq![32u8] + (join_fragments(fs.skip(1)) + seq![32u8] + g) =~= (fs[0]
            + seq![32u8] + join_fragments(fs.skip(1))) + seq![32u8] + g);
    }
}

/// Parse an explicit markup block and join its lines into one logical line.
///
/// On success the returned slice is the unconsumed input, beginning with the
/// line break before the first line that ended the block, and the returned
/// text is the joined block: a view into the input for a single-line block,
/// an owned string when several lines were joined.
pub fn rst_explicit_markup_block<'a>(i: &'a [u8]) -> (r: Result<(&'a [u8], Text<'a>), ParseError>)
    ensures
        match r {
            Ok((rem, t)) => block_spec(i@) matches Some(fsp) && rem@ == i@.skip(fsp.1) && t@
                == join_fragments(fsp.0) && (t.is_borrowed() <==> fsp.0.len() == 1) && (
            t.is_borrowed() ==> t@.len() <= i@.len()),
            Err(e) => block_spec(i@) is None && e.kind == ParseErrorKind::MissingOpeningMarker
                && e.pos == indent_len(i@) && e.pos <= i@.len(),
        },
{
    let mut w: usize = 0;
    while w < i.len() && (i[w] == 32 || i[w] == 9)
        invariant
            0 <= w <= i@.len(),
            forall|m: int| 0 <= m < w ==> is_blank(i@[m]),
        decreases i@.len() - w,
    {
        w = w + 1;
    }
    proof {
        lemma_indent_len_at(i@, w as int);
    }
    if i.len() - w < 3 || i[w] != 46 || i[w + 1] != 46 || i[w + 2] != 32 {
        return Err(ParseError { kind: ParseErrorKind::MissingOpeningMarker, pos: w });
    }
    let mut pre: Vec<u8> = Vec::new();
    pre.extend_from_slice(vstd::slice::slice_subrange(i, 0, w));
    pre.push(32);
    pre.push(32);
    pre.push(32);
    proof {
        assert(pre@ =~= i@.subrange(0, w as int) + seq![32u8, 32u8, 32u8]);
    }
    let ghost j0: int = w as int + 3;
    let mut j: usize = w + 3;
    let ghost mut fs: Seq<Seq<u8>> = Seq::empty();
    let mut nfrags: usize = 0;
    let mut out: Vec<u8> = Vec::new();
    let mut f_start: usize = 0;
    let mut f_end: usize = 0;
    let mut done: bool = false;
    let mut rem_start: usize = 0;
    proof {
        assert(Seq::<Seq<u8>>::empty() + block_tail(i@, pre@, j0).0 =~= block_tail(
            i@,
            pre@,
            j0,
        ).0);
    }
    while !done
        invariant
            0 <= j0 <= j as int <= i@.len(),
            pre@ == i@.subrange(0, w as int) + seq![32u8, 32u8, 32u8],
            pre@.len() == w as int + 3,
            nfrags as int == fs.len(),
            out@ == join_fragments(fs),
            nfrags >= 1 ==> f_start <= f_end && f_end <= i@.len() && fs[0] == i@.subrange(
                f_start as int,
                f_end as int,
            ),
            !done ==> 4 * (nfrags as int) <= j as int - j0,
            !done ==> block_tail(i@, pre@, j0) == (
                fs + block_tail(i@, pre@, j as int).0,
                block_tail(i@, pre@, j as int).1,
            ),
            done ==> nfrags >= 1 && rem_start <= i@.len() && block_tail(i@, pre@, j0) == (
                fs,
                rem_start as int,
            ),
        decreases (if done {
            0int
        } else {
            i@.len() - j + 1
        }),
    {
        let mut e: usize = j;
        while e < i.len() && !(i[e] == 10 || (i[e] == 13 && e + 1 < i.len() && i[e + 1] == 10))
            invariant
                j <= e <= i@.len(),
                forall|m: int| j <= m < e ==> !is_line_break_at(i@, m),
            decreases i@.len() - e,
        {
            e = e + 1;
        }
        proof {
            lemma_frag_end_at(i@, j as int, e as int);
        }
        let ghost frag: Seq<u8> = i@.subrange(j as int, e as int);
        let ghost fs_old: Seq<Seq<u8>> = fs;
        if nfrags == 0 {
            f_start = j;
            f_end = e;
        } else {
            out.push(32);
        }
        out.extend_from_slice(vstd::slice::slice_subrange(i, j, e));
        proof {
            lemma_join_push(fs, frag);
            if fs.len() == 0 {
                assert(out@ =~= frag);
            } else {
                assert(out@ =~= join_fragments(fs) + seq![32u8] + frag);
            }
            fs = fs.push(frag);
        }
        nfrags = nfrags + 1;
        if e == i.len() {
            done = true;
            rem_start = e;
            proof {
                assert(block_tail(i@, pre@, j as int) == (seq![frag], i@.len() as int));
                assert(fs_old + seq![frag] =~= fs);
            }
        } else {
            let blen: usize = if i[e] == 13 {
                2
            } else {
                1
            };
            let n = e + blen;
            if pre.len() <= i.len() - n && bytes_eq(
                vstd::slice::slice_subrange(i, n, n + pre.len()),
                pre.as_slice(),
            ) {
                proof {
                    assert(block_tail(i@, pre@, j as int) == (
                        seq![frag] + block_tail(i@, pre@, n as int + pre@.len()).0,
                        block_tail(i@, pre@, n as int + pre@.len()).1,
                    ));
                    assert(fs_old + (seq![frag] + block_tail(i@, pre@, n as int + pre@.len()).0)
                        =~= fs + block_tail(i@, pre@, n as int + pre@.len()).0);
                }
                j = n + pre.len();
            } else {
                done = true;
                rem_start = e;
                proof {
                    assert(block_tail(i@, pre@, j as int) == (seq![frag], e as int));
                    assert(fs_old + seq![frag] =~= fs);
                }
            }
        }
    }
    let rem = vstd::slice::slice_subrange(i, rem_start, i.len());
    proof {
        assert(i@.subrange(rem_start as int, i@.len() as int) =~= i@.skip(rem_start as int));
    }
    if nfrags == 1 {
        let s = vstd::slice::slice_subrange(i, f_start, f_end);
        Ok((rem, Text::Borrowed(s)))
    } else {
        Ok((rem, Text::Owned(out)))
    }
}

} // verus!
