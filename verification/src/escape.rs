//! The reStructuredText escape/whitespace transforms.
//!
//! A backslash may escape one of `` \ ` : < > `` or a space. The name-field
//! transform keeps ordinary whitespace and deletes an escaped space; the
//! destination-field transform deletes ordinary whitespace and turns an
//! escaped space into exactly one space, so a destination may be wrapped
//! across lines without changing its value. A backslash followed by any other
//! character is a hard parse error at the backslash.
//!
//! When a transform changes nothing it returns a view into its input, not a
//! fresh allocation.

use crate::chars::{byte_is_escapable, byte_is_space, is_escapable, is_space};
use crate::error::{ParseError, ParseErrorKind};
use crate::text::Text;
use vstd::prelude::*;

verus! {

/// The logical value of a link name: escapes are resolved, ordinary
/// whitespace is kept, an escaped space is deleted. `None` on an invalid
/// escape sequence.
pub open spec fn name_transform_spec(s: Seq<u8>) -> Option<Seq<u8>>
    decreases s.len(),
{
    if s.len() == 0 {
        Some(Seq::empty())
    } else if s[0] == 92 {
        if s.len() >= 2 && is_escapable(s[1]) {
            match name_transform_spec(s.skip(2)) {
                Some(t) => Some(seq![s[1]] + t),
                None => None,
            }
        } else if s.len() >= 2 && s[1] == 32 {
            name_transform_spec(s.skip(2))
        } else {
            None
        }
    } else {
        match name_transform_spec(s.skip(1)) {
            Some(t) => Some(seq![s[0]] + t),
            None => None,
        }
    }
}

/// The logical value of a link destination: escapes are resolved, ordinary
/// whitespace is deleted, an escaped space becomes exactly one space. `None`
/// on an invalid escape sequence.
pub open spec fn dest_transform_spec(s: Seq<u8>) -> Option<Seq<u8>>
    decreases s.len(),
{
    if s.len() == 0 {
        Some(Seq::empty())
    } else if s[0] == 92 {
        if s.len() >= 2 && is_escapable(s[1]) {
            match dest_transform_spec(s.skip(2)) {
                Some(t) => Some(seq![s[1]] + t),
                None => None,
            }
        } else if s.len() >= 2 && s[1] == 32 {
            match dest_transform_spec(s.skip(2)) {
                Some(t) => Some(seq![32u8] + t),
                None => None,
            }
        } else {
            None
        }
    } else if is_space(s[0]) {
        dest_transform_spec(s.skip(1))
    } else {
        match dest_transform_spec(s.skip(1)) {
            Some(t) => Some(seq![s[0]] + t),
            None => None,
        }
    }
}

/// Ordinary whitespace deleted, escape pairs kept verbatim. `None` on an
/// invalid escape sequence.
pub open spec fn strip_whitespace_spec(s: Seq<u8>) -> Option<Seq<u8>>
    decreases s.len(),
{
    if s.len() == 0 {
        Some(Seq::empty())
    } else if is_space(s[0]) {
        strip_whitespace_spec(s.skip(1))
    } else if s[0] == 92 {
        if s.len() >= 2 && (is_escapable(s[1]) || s[1] == 32) {
            match strip_whitespace_spec(s.skip(2)) {
                Some(t) => Some(seq![92u8, s[1]] + t),
                None => None,
            }
        } else {
            None
        }
    } else {
        match strip_whitespace_spec(s.skip(1)) {
            Some(t) => Some(seq![s[0]] + t),
            None => None,
        }
    }
}

/// On backslash-free input the name transform is the identity.
pub proof fn lemma_name_transform_identity(s: Seq<u8>)
    requires
        forall|k: int| 0 <= k < s.len() ==> s[k] != 92,
    ensures
        name_transform_spec(s) == Some(s),
    decreases s.len(),
{
    if s.len() == 0 {
        assert(s =~= Seq::<u8>::empty());
    } else {
        lemma_name_transform_identity(s.skip(1));
        assert(seq![s[0]] + s.skip(1) =~= s);
    }
}

/// The name transform never lengthens its input.
pub proof fn lemma_name_transform_len(s: Seq<u8>)
    ensures
        name_transform_spec(s) matches Some(t) ==> t.len() <= s.len(),
    decreases s.len(),
{
    if s.len() == 0 {
    } else if s[0] == 92 {
        if s.len() >= 2 {
            lemma_name_transform_len(s.skip(2));
        }
    } else {
        lemma_name_transform_len(s.skip(1));
    }
}

/// On input holding a backslash the name transform strictly shortens.
pub proof fn lemma_name_transform_shrinks(s: Seq<u8>)
    requires
        exists|k: int| 0 <= k < s.len() && s[k] == 92,
    ensures
        name_transform_spec(s) matches Some(t) ==> t.len() < s.len(),
    decreases s.len(),
{
    let k = choose|k: int| 0 <= k < s.len() && s[k] == 92;
    if s[0] == 92 {
        if s.len() >= 2 {
            lemma_name_transform_len(s.skip(2));
        }
    } else {
        assert(s.skip(1)[k - 1] == 92);
        lemma_name_transform_shrinks(s.skip(1));
    }
}

/// On input free of backslashes and whitespace the destination transform is
/// the identity.
pub proof fn lemma_dest_transform_identity(s: Seq<u8>)
    requires
        forall|k: int| 0 <= k < s.len() ==> s[k] != 92 && !is_space(s[k]),
    ensures
        dest_transform_spec(s) == Some(s),
    decreases s.len(),
{
    if s.len() == 0 {
        assert(s =~= Seq::<u8>::empty());
    } else {
        lemma_dest_transform_identity(s.skip(1));
        assert(seq![s[0]] + s.skip(1) =~= s);
    }
}

/// The destination transform never lengthens its input.
pub proof fn lemma_dest_transform_len(s: Seq<u8>)
    ensures
        dest_transform_spec(s) matches Some(t) ==> t.len() <= s.len(),
    decreases s.len(),
{
    if s.len() == 0 {
    } else if s[0] == 92 {
        if s.len() >= 2 {
            lemma_dest_transform_len(s.skip(2));
        }
    } else {
        lemma_dest_transform_len(s.skip(1));
    }
}

/// On input holding a backslash or whitespace the destination transform
/// strictly shortens.
pub proof fn lemma_dest_transform_shrinks(s: Seq<u8>)
    requires
        exists|k: int| 0 <= k < s.len() && (s[k] == 92 || is_space(s[k])),
    ensures
        dest_transform_spec(s) matches Some(t) ==> t.len() < s.len(),
    decreases s.len(),
{
    let k = choose|k: int| 0 <= k < s.len() && (s[k] == 92 || is_space(s[k]));
    if s[0] == 92 {
        if s.len() >= 2 {
            lemma_dest_transform_len(s.skip(2));
        }
    } else if is_space(s[0]) {
        lemma_dest_transform_len(s.skip(1));
    } else {
        assert(s.skip(1)[k - 1] == 92 || is_space(s.skip(1)[k - 1]));
        lemma_dest_transform_shrinks(s.skip(1));
    }
}

/// Replace each escape sequence in a raw link name with its logical value:
/// `` \\ \` \: \< \> `` become `` \ ` : < > `` and an escaped space is
/// deleted; ordinary whitespace is kept verbatim.
///
/// The result is a view into `i` exactly when nothing changed.
pub fn rst_escaped_link_name_transform<'a>(i: &'a [u8]) -> (r: Result<Text<'a>, ParseError>)
    ensures
        match r {
            Ok(t) => Some(t@) == name_transform_spec(i@) && (t.is_borrowed() <==> name_transform_spec(
                i@,
            ) == Some(i@)),
            Err(e) => name_transform_spec(i@) is None && e.kind
                == ParseErrorKind::InvalidEscapeSequence && e.pos < i@.len() && i@[e.pos as int]
                == 92,
        },
{
    let mut k: usize = 0;
    while k < i.len() && i[k] != 92
        invariant
            0 <= k <= i@.len(),
            forall|m: int| 0 <= m < k ==> i@[m] != 92,
        decreases i@.len() - k,
    {
        k = k + 1;
    }
    if k == i.len() {
        proof {
            lemma_name_transform_identity(i@);
        }
        return Ok(Text::Borrowed(i));
    }
    let mut out: Vec<u8> = Vec::new();
    let mut j: usize = 0;
    proof {
        assert(i@.skip(0) =~= i@);
        match name_transform_spec(i@) {
            Some(t) => {
                assert(Seq::<u8>::empty() + t =~= t);
            },
            None => {},
        }
    }
    while j < i.len()
        invariant
            0 <= j <= i@.len(),
            k < i@.len() && i@[k as int] == 92,
            match name_transform_spec(i@.skip(j as int)) {
                Some(t) => name_transform_spec(i@) == Some(out@ + t),
                None => name_transform_spec(i@) is None,
            },
        decreases i@.len() - j,
    {
        let c = i[j];
        if c == 92 {
            if j + 1 < i.len() {
                let d = i[j + 1];
                if byte_is_escapable(d) || d == 32 {
                    proof {
                        assert(i@.skip(j as int).skip(2) =~= i@.skip(j as int + 2));
                        assert(out@.push(d) =~= out@ + seq![d]);
                    }
                    if d != 32 {
                        proof {
                            match name_transform_spec(i@.skip(j as int + 2)) {
                                Some(t2) => {
                                    assert(out@ + (seq![d] + t2) =~= (out@ + seq![d]) + t2);
                                },
                                None => {},
                            }
                        }
                        out.push(d);
                    }
                    j = j + 2;
                } else {
                    return Err(
                        ParseError { kind: ParseErrorKind::InvalidEscapeSequence, pos: j },
                    );
                }
            } else {
                return Err(ParseError { kind: ParseErrorKind::InvalidEscapeSequence, pos: j });
            }
        } else {
            proof {
                assert(i@.skip(j as int).skip(1) =~= i@.skip(j as int + 1));
                assert(out@.push(c) =~= out@ + seq![c]);
                match name_transform_spec(i@.skip(j as int + 1)) {
                    Some(t2) => {
                        assert(out@ + (seq![c] + t2) =~= (out@ + seq![c]) + t2);
                    },
                    None => {},
                }
            }
            out.push(c);
            j = j + 1;
        }
    }
    proof {
        assert(i@.skip(i@.len() as int) =~= Seq::<u8>::empty());
        assert(out@ + Seq::<u8>::empty() =~= out@);
        lemma_name_transform_shrinks(i@);
    }
    Ok(Text::Owned(out))
}

/// Replace each escape sequence in a raw link destination with its logical
/// value — `` \\ \` \: \< \> `` become `` \ ` : < > ``, an escaped space
/// becomes one space — after deleting all ordinary whitespace, including line
/// breaks.
///
/// The result is a view into `i` exactly when nothing changed.
pub fn rst_escaped_link_destination_transform<'a>(i: &'a [u8]) -> (r: Result<
    Text<'a>,
    ParseError,
>)
    ensures
        match r {
            Ok(t) => Some(t@) == dest_transform_spec(i@) && (t.is_borrowed() <==> dest_transform_spec(
                i@,
            ) == Some(i@)),
            Err(e) => dest_transform_spec(i@) is None && e.kind
                == ParseErrorKind::InvalidEscapeSequence && e.pos < i@.len() && i@[e.pos as int]
                == 92,
        },
{
    let mut k: usize = 0;
    while k < i.len() && i[k] != 92 && !byte_is_space(i[k])
        invariant
            0 <= k <= i@.len(),
            forall|m: int| 0 <= m < k ==> i@[m] != 92 && !is_space(i@[m]),
        decreases i@.len() - k,
    {
        k = k + 1;
    }
    if k == i.len() {
        proof {
            lemma_dest_transform_identity(i@);
        }
        return Ok(Text::Borrowed(i));
    }
    let mut out: Vec<u8> = Vec::new();
    let mut j: usize = 0;
    proof {
        assert(i@.skip(0) =~= i@);
        match dest_transform_spec(i@) {
            Some(t) => {
                assert(Seq::<u8>::empty() + t =~= t);
            },
            None => {},
        }
    }
    while j < i.len()
        invariant
            0 <= j <= i@.len(),
            k < i@.len() && (i@[k as int] == 92 || is_space(i@[k as int])),
            match dest_transform_spec(i@.skip(j as int)) {
                Some(t) => dest_transform_spec(i@) == Some(out@ + t),
                None => dest_transform_spec(i@) is None,
            },
        decreases i@.len() - j,
    {
        let c = i[j];
        if c == 92 {
            if j + 1 < i.len() {
                let d = i[j + 1];
                if byte_is_escapable(d) || d == 32 {
                    proof {
                        assert(i@.skip(j as int).skip(2) =~= i@.skip(j as int + 2));
                        assert(out@.push(d) =~= out@ + seq![d]);
                        match dest_transform_spec(i@.skip(j as int + 2)) {
                            Some(t2) => {
                                assert(out@ + (seq![d] + t2) =~= (out@ + seq![d]) + t2);
                            },
                            None => {},
                        }
                    }
                    out.push(d);
                    j = j + 2;
                } else {
                    return Err(
                        ParseError { kind: ParseErrorKind::InvalidEscapeSequence, pos: j },
                    );
                }
            } else {
                return Err(ParseError { kind: ParseErrorKind::InvalidEscapeSequence, pos: j });
            }
        } else if byte_is_space(c) {
            proof {
                assert(i@.skip(j as int).skip(1) =~= i@.skip(j as int + 1));
            }
            j = j + 1;
        } else {
            proof {
                assert(i@.skip(j as int).skip(1) =~= i@.skip(j as int + 1));
                assert(out@.push(c) =~= out@ + seq![c]);
                match dest_transform_spec(i@.skip(j as int + 1)) {
                    Some(t2) => {
                        assert(out@ + (seq![c] + t2) =~= (out@ + seq![c]) + t2);
                    },
                    None => {},
                }
            }
            out.push(c);
            j = j + 1;
        }
    }
    proof {
        assert(i@.skip(i@.len() as int) =~= Seq::<u8>::empty());
        assert(out@ + Seq::<u8>::empty() =~= out@);
        lemma_dest_transform_shrinks(i@);
    }
    Ok(Text::Owned(out))
}

/// Delete all ordinary whitespace but keep escape pairs — among them `\ ` —
/// verbatim. Escape resolution is left to the destination transform.
///
/// When the kept bytes form one contiguous run of the input the result is a
/// view into that run; otherwise it is owned.
pub fn remove_whitespace<'a>(i: &'a [u8]) -> (r: Result<Text<'a>, ParseError>)
    ensures
        match r {
            Ok(t) => Some(t@) == strip_whitespace_spec(i@),
            Err(e) => strip_whitespace_spec(i@) is None && e.kind
                == ParseErrorKind::InvalidEscapeSequence && e.pos < i@.len() && i@[e.pos as int]
                == 92,
        },
{
    let mut out: Vec<u8> = Vec::new();
    let mut j: usize = 0;
    let mut started: bool = false;
    let mut contig: bool = true;
    let mut cs: usize = 0;
    let mut ce: usize = 0;
    proof {
        assert(i@.skip(0) =~= i@);
        match strip_whitespace_spec(i@) {
            Some(t) => {
                assert(Seq::<u8>::empty() + t =~= t);
            },
            None => {},
        }
    }
    while j < i.len()
        invariant
            0 <= j <= i@.len(),
            started ==> cs <= ce <= j,
            !started ==> out@.len() == 0,
            started && contig ==> out@ == i@.subrange(cs as int, ce as int),
            match strip_whitespace_spec(i@.skip(j as int)) {
                Some(t) => strip_whitespace_spec(i@) == Some(out@ + t),
                None => strip_whitespace_spec(i@) is None,
            },
        decreases i@.len() - j,
    {
        let c = i[j];
        if byte_is_space(c) {
            proof {
                assert(i@.skip(j as int).skip(1) =~= i@.skip(j as int + 1));
            }
            j = j + 1;
        } else if c == 92 {
            if j + 1 < i.len() {
                let d = i[j + 1];
                if byte_is_escapable(d) || d == 32 {
                    proof {
                        assert(i@.skip(j as int).skip(2) =~= i@.skip(j as int + 2));
                        assert(out@.push(92u8).push(d) =~= out@ + seq![92u8, d]);
                        match strip_whitespace_spec(i@.skip(j as int + 2)) {
                            Some(t2) => {
                                assert(out@ + (seq![92u8, d] + t2) =~= (out@ + seq![92u8, d]) + t2);
                            },
                            None => {},
                        }
                    }
                    if !started {
                        started = true;
                        cs = j;
                        ce = j + 2;
                    } else if contig && ce == j {
                        ce = j + 2;
                    } else {
                        contig = false;
                    }
                    out.push(92);
                    out.push(d);
                    proof {
                        if started && contig {
                            assert(out@ =~= i@.subrange(cs as int, ce as int));
                        }
                    }
                    j = j + 2;
                } else {
                    return Err(
                        ParseError { kind: ParseErrorKind::InvalidEscapeSequence, pos: j },
                    );
                }
            } else {
                return Err(ParseError { kind: ParseErrorKind::InvalidEscapeSequence, pos: j });
            }
        } else {
            proof {
                assert(i@.skip(j as int).skip(1) =~= i@.skip(j as int + 1));
                assert(out@.push(c) =~= out@ + seq![c]);
                match strip_whitespace_spec(i@.skip(j as int + 1)) {
                    Some(t2) => {
                        assert(out@ + (seq![c] + t2) =~= (out@ + seq![c]) + t2);
                    },
                    None => {},
                }
            }
            if !started {
                started = true;
                cs = j;
                ce = j + 1;
            } else if contig && ce == j {
                ce = j + 1;
            } else {
                contig = false;
            }
            out.push(c);
            proof {
                if started && contig {
                    assert(out@ =~= i@.subrange(cs as int, ce as int));
                }
            }
            j = j + 1;
        }
    }
    proof {
        assert(i@.skip(i@.len() as int) =~= Seq::<u8>::empty());
        assert(out@ + Seq::<u8>::empty() =~= out@);
    }
    if contig {
        if started {
            let s = vstd::slice::slice_subrange(i, cs, ce);
            Ok(Text::Borrowed(s))
        } else {
            let s = vstd::slice::slice_subrange(i, 0, 0);
            proof {
                assert(i@.subrange(0, 0) =~= Seq::<u8>::empty());
            }
            Ok(Text::Borrowed(s))
        }
    } else {
        Ok(Text::Owned(out))
    }
}

/// Law: the destination transform is idempotent. For an input whose escape
/// sequences all resolve to `` ` : < `` or `` > `` — so the output holds no
/// backslash and no space that a second pass would touch — the transform
/// succeeds and re-applying it to the output changes nothing.
pub proof fn lemma_destination_transform_idempotent(s: Seq<u8>)
    requires
        forall|k: int| 0 <= k < s.len() && #[trigger] s[k] == 92 ==> k + 1 < s.len() && (s[k + 1] == 96 || s[k
            + 1] == 58 || s[k + 1] == 60 || s[k + 1] == 62),
    ensures
        dest_transform_spec(s) is Some,
        dest_transform_spec(s) matches Some(t) ==> dest_transform_spec(t) == Some(t),
{
    lemma_dest_transform_plain_output(s);
    match dest_transform_spec(s) {
        Some(t) => {
            lemma_dest_transform_identity(t);
        },
        None => {},
    }
}

/// When every escape in the input resolves to `` ` : < `` or `` > ``, the
/// destination transform succeeds and its output is free of backslashes and
/// whitespace.
proof fn lemma_dest_transform_plain_output(s: Seq<u8>)
    requires
        forall|k: int| 0 <= k < s.len() && #[trigger] s[k] == 92 ==> k + 1 < s.len() && (s[k + 1] == 96 || s[k
            + 1] == 58 || s[k + 1] == 60 || s[k + 1] == 62),
    ensures
        dest_transform_spec(s) is Some,
        dest_transform_spec(s) matches Some(t) ==> forall|m: int|
            0 <= m < t.len() ==> t[m] != 92 && !is_space(t[m]),
    decreases s.len(),
{
    if s.len() == 0 {
    } else if s[0] == 92 {
        assert(s[1] == 96 || s[1] == 58 || s[1] == 60 || s[1] == 62);
        assert(forall|k: int|
            0 <= k < s.skip(2).len() && #[trigger] s.skip(2)[k] == 92 ==> k + 1 < s.skip(2).len() && (s.skip(
                2,
            )[k + 1] == 96 || s.skip(2)[k + 1] == 58 || s.skip(2)[k + 1] == 60 || s.skip(2)[k + 1]
                == 62)) by {
            assert(forall|k: int| 0 <= k < s.skip(2).len() ==> s.skip(2)[k] == s[k + 2]);
        }
        lemma_dest_transform_plain_output(s.skip(2));
    } else {
        assert(forall|k: int|
            0 <= k < s.skip(1).len() && #[trigger] s.skip(1)[k] == 92 ==> k + 1 < s.skip(1).len() && (s.skip(
                1,
            )[k + 1] == 96 || s.skip(1)[k + 1] == 58 || s.skip(1)[k + 1] == 60 || s.skip(1)[k + 1]
                == 62)) by {
            assert(forall|k: int| 0 <= k < s.skip(1).len() ==> s.skip(1)[k] == s[k + 1]);
        }
        lemma_dest_transform_plain_output(s.skip(1));
    }
}

} // verus!
