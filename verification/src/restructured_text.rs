//! The reStructuredText link parsers.
//!
//! An inline link is a backtick-quoted span ended by `` `_ `` (a doubled
//! `` `__ `` parses identically); inside it, the text before the first
//! unescaped `<` — trimmed of trailing whitespace — is the raw name and the
//! bracketed run is the raw destination, which must be the last thing in the
//! span. A link-reference definition lives in an explicit markup block: after
//! the underscore marker, the label is either a backtick-quoted escaped run
//! ended by `` `: `` or an escaped run ended by `: ` in which an unescaped
//! colon is illegal. Both parsers resolve escapes through the transforms of
//! [`crate::escape`] and always return an empty title.

use crate::block::{block_spec, join_fragments, rst_explicit_markup_block};
use crate::chars::{byte_is_space, is_space, lemma_trim_end_at, trim_end_spec};
use crate::error::{ParseError, ParseErrorKind};
use crate::escape::{
    dest_transform_spec, name_transform_spec, rst_escaped_link_destination_transform,
    rst_escaped_link_name_transform,
};
use crate::text::Text;
use vstd::prelude::*;

verus! {

/// How a scan over an escaped run came to its end.
#[derive(Clone, Copy, Debug, PartialEq, Eq, Structural)]
pub enum ScanEnd {
    /// The region's end was reached without meeting a delimiter.
    Input,
    /// An unescaped delimiter byte was met.
    Delim,
    /// A backslash was followed by a byte outside the escape set.
    BadEscape,
}

/// Scan the escaped run of `s` from `j` up to `end`: ordinary bytes and
/// escape pairs — a backslash before one of `` ` : < > ``, a space, or (only
/// when `esc_bsl` is set) another backslash — are consumed; the scan stops at
/// the first unescaped `stop1` or `stop2` byte, at a bad escape, or at `end`.
/// Returns the stop position and how the scan ended.
pub open spec fn scan_escaped(
    s: Seq<u8>,
    j: int,
    end: int,
    stop1: u8,
    stop2: u8,
    esc_bsl: bool,
) -> (int, ScanEnd)
    decreases end - j,
{
    if j >= end {
        (end, ScanEnd::Input)
    } else if s[j] == 92 {
        if j + 1 < end && (s[j + 1] == 32 || s[j + 1] == 96 || s[j + 1] == 58 || s[j + 1] == 60
            || s[j + 1] == 62 || (esc_bsl && s[j + 1] == 92)) {
            scan_escaped(s, j + 2, end, stop1, stop2, esc_bsl)
        } else {
            (j, ScanEnd::BadEscape)
        }
    } else if s[j] == stop1 || s[j] == stop2 {
        (j, ScanEnd::Delim)
    } else {
        scan_escaped(s, j + 1, end, stop1, stop2, esc_bsl)
    }
}

/// Runtime scan matching [`scan_escaped`] over the bytes of `i`.
fn scan_run(i: &[u8], start: usize, end: usize, stop1: u8, stop2: u8, esc_bsl: bool) -> (r: (
    usize,
    ScanEnd,
))
    requires
        start <= end <= i@.len(),
    ensures
        (r.0 as int, r.1) == scan_escaped(i@, start as int, end as int, stop1, stop2, esc_bsl),
        start <= r.0 <= end,
        r.1 == ScanEnd::Input ==> r.0 == end,
        r.1 != ScanEnd::Input ==> r.0 < end,
{
    let mut cur: usize = start;
    while cur < end
        invariant
            start <= cur <= end <= i@.len(),
            scan_escaped(i@, start as int, end as int, stop1, stop2, esc_bsl) == scan_escaped(
                i@,
                cur as int,
                end as int,
                stop1,
                stop2,
                esc_bsl,
            ),
        decreases end - cur,
    {
        let c = i[cur];
        if c == 92 {
            if cur + 1 < end && (i[cur + 1] == 32 || i[cur + 1] == 96 || i[cur + 1] == 58 || i[cur
                + 1] == 60 || i[cur + 1] == 62 || (esc_bsl && i[cur + 1] == 92)) {
                cur = cur + 2;
            } else {
                return (cur, ScanEnd::BadEscape);
            }
        } else if c == stop1 || c == stop2 {
            return (cur, ScanEnd::Delim);
        } else {
            cur = cur + 1;
        }
    }
    (end, ScanEnd::Input)
}

/// The result of recognizing an inline link's envelope: the position where
/// the unconsumed input starts, the raw (untransformed) name — trimmed of
/// trailing whitespace — and the raw destination; or the error kind.
pub open spec fn rst_parse_link_spec(s: Seq<u8>) -> (
    Option<(int, Seq<u8>, Seq<u8>)>,
    ParseErrorKind,
) {
    if s.len() == 0 || s[0] != 96 {
        (None, ParseErrorKind::MissingOpeningMarker)
    } else {
        let outer = scan_escaped(s, 1, s.len() as int, 96, 96, true);
        if outer.1 == ScanEnd::BadEscape {
            (None, ParseErrorKind::InvalidEscapeSequence)
        } else if outer.1 == ScanEnd::Input {
            (None, ParseErrorKind::UnterminatedConstruct)
        } else {
            let e = outer.0;
            if !(e + 1 < s.len() && s[e + 1] == 95) {
                (None, ParseErrorKind::UnterminatedConstruct)
            } else {
                let rem = if e + 2 < s.len() && s[e + 2] == 95 {
                    e + 3
                } else {
                    e + 2
                };
                let nscan = scan_escaped(s, 1, e, 60, 60, false);
                if nscan.1 == ScanEnd::BadEscape {
                    (None, ParseErrorKind::InvalidEscapeSequence)
                } else if nscan.1 == ScanEnd::Input {
                    (None, ParseErrorKind::MissingMandatoryField)
                } else {
                    let ne = nscan.0;
                    let dscan = scan_escaped(s, ne + 1, e, 60, 62, false);
                    if dscan.1 == ScanEnd::BadEscape {
                        (None, ParseErrorKind::InvalidEscapeSequence)
                    } else if dscan.1 == ScanEnd::Input {
                        (None, ParseErrorKind::UnterminatedConstruct)
                    } else {
                        let de = dscan.0;
                        if s[de] == 60 {
                            (None, ParseErrorKind::UnterminatedConstruct)
                        } else if de + 1 != e {
                            (None, ParseErrorKind::TrailingContentAfterDestination)
                        } else {
                            (
                                Some(
                                    (
                                        rem,
                                        trim_end_spec(s.subrange(1, ne)),
                                        s.subrange(ne + 1, de),
                                    ),
                                ),
                                ParseErrorKind::InvalidFieldName,
                            )
                        }
                    }
                }
            }
        }
    }
}

/// Recognize an inline link's envelope without resolving escapes: the span
/// between the opening backtick and the closing `` `_ `` (one extra `_` is
/// consumed when doubled), split into raw name and raw bracketed destination.
pub fn rst_parse_link<'a>(i: &'a [u8]) -> (r: Result<(&'a [u8], (&'a [u8], &'a [u8])), ParseError>)
    ensures
        match r {
            Ok((rem, nd)) => rst_parse_link_spec(i@).0 matches Some(x) && rem@ == i@.skip(x.0)
                && nd.0@ == x.1 && nd.1@ == x.2 && x.1.len() <= i@.len() && x.2.len() <= i@.len(),
            Err(e) => rst_parse_link_spec(i@).0 is None && e.kind == rst_parse_link_spec(i@).1
                && e.pos <= i@.len(),
        },
{
    if i.len() == 0 || i[0] != 96 {
        return Err(ParseError { kind: ParseErrorKind::MissingOpeningMarker, pos: 0 });
    }
    let (e, r1) = scan_run(i, 1, i.len(), 96, 96, true);
    if r1 == ScanEnd::BadEscape {
        return Err(ParseError { kind: ParseErrorKind::InvalidEscapeSequence, pos: e });
    }
    if r1 == ScanEnd::Input {
        return Err(ParseError { kind: ParseErrorKind::UnterminatedConstruct, pos: e });
    }
    if e + 1 >= i.len() || i[e + 1] != 95 {
        return Err(ParseError { kind: ParseErrorKind::UnterminatedConstruct, pos: e });
    }
    let rem_start: usize = if e + 2 < i.len() && i[e + 2] == 95 {
        e + 3
    } else {
        e + 2
    };
    let (ne, r2) = scan_run(i, 1, e, 60, 60, false);
    if r2 == ScanEnd::BadEscape {
        return Err(ParseError { kind: ParseErrorKind::InvalidEscapeSequence, pos: ne });
    }
    if r2 == ScanEnd::Input {
        return Err(ParseError { kind: ParseErrorKind::MissingMandatoryField, pos: ne });
    }
    let (de, r3) = scan_run(i, ne + 1, e, 60, 62, false);
    if r3 == ScanEnd::BadEscape {
        return Err(ParseError { kind: ParseErrorKind::InvalidEscapeSequence, pos: de });
    }
    if r3 == ScanEnd::Input {
        return Err(ParseError { kind: ParseErrorKind::UnterminatedConstruct, pos: de });
    }
    if i[de] == 60 {
        return Err(ParseError { kind: ParseErrorKind::UnterminatedConstruct, pos: de });
    }
    if de + 1 != e {
        return Err(
            ParseError { kind: ParseErrorKind::TrailingContentAfterDestination, pos: de + 1 },
        );
    }
    let mut nend: usize = ne;
    while nend > 1 && byte_is_space(i[nend - 1])
        invariant
            1 <= nend <= ne,
            ne < i@.len(),
            forall|k: int| nend <= k < ne ==> is_space(i@[k]),
        decreases nend,
    {
        nend = nend - 1;
    }
    proof {
        let raw = i@.subrange(1, ne as int);
        assert(forall|k: int| nend - 1 <= k < raw.len() ==> is_space(raw[k]));
        lemma_trim_end_at(raw, nend as int - 1);
        assert(raw.subrange(0, nend as int - 1) =~= i@.subrange(1, nend as int));
    }
    let name = vstd::slice::slice_subrange(i, 1, nend);
    let dest = vstd::slice::slice_subrange(i, ne + 1, de);
    let rem = vstd::slice::slice_subrange(i, rem_start, i.len());
    proof {
        assert(rem@ =~= i@.skip(rem_start as int));
    }
    Ok((rem, (name, dest)))
}

/// The error kind — if any — with which the full inline-link parse fails:
/// the envelope must be recognized, both transforms must succeed, and the
/// transformed destination must be non-empty.
pub open spec fn rst_link_err(s: Seq<u8>) -> Option<ParseErrorKind> {
    match rst_parse_link_spec(s).0 {
        None => Some(rst_parse_link_spec(s).1),
        Some(x) => {
            if name_transform_spec(x.1) is None {
                Some(ParseErrorKind::InvalidEscapeSequence)
            } else if dest_transform_spec(x.2) is None {
                Some(ParseErrorKind::InvalidEscapeSequence)
            } else if dest_transform_spec(x.2)->Some_0.len() == 0 {
                Some(ParseErrorKind::MissingMandatoryField)
            } else {
                None
            }
        },
    }
}

/// Parse a reStructuredText inline link. The input must start with the
/// opening backtick. Returns the unconsumed suffix and the transformed
/// `(name, destination, title)` triple; the destination is never empty and
/// the title always is. Each returned text is a view into the input when its
/// transform changed nothing.
pub fn rst_link<'a>(i: &'a [u8]) -> (r: Result<
    (&'a [u8], (Text<'a>, Text<'a>, Text<'a>)),
    ParseError,
>)
    ensures
        match r {
            Ok((rem, t3)) => rst_parse_link_spec(i@).0 matches Some(x) && rst_link_err(i@) is None
                && rem@ == i@.skip(x.0) && Some(t3.0@) == name_transform_spec(x.1) && (
            t3.0.is_borrowed() <==> name_transform_spec(x.1) == Some(x.1)) && Some(t3.1@)
                == dest_transform_spec(x.2) && (t3.1.is_borrowed() <==> dest_transform_spec(x.2)
                == Some(x.2)) && t3.1@.len() > 0 && t3.2@ == Seq::<u8>::empty()
                && t3.2.is_borrowed(),
            Err(e) => rst_link_err(i@) == Some(e.kind) && e.pos <= i@.len(),
        },
{
    let (rem, (rn, rd)) = match rst_parse_link(i) {
        Ok(p) => p,
        Err(e) => {
            return Err(e);
        },
    };
    let n = match rst_escaped_link_name_transform(rn) {
        Ok(t) => t,
        Err(e) => {
            return Err(ParseError { kind: e.kind, pos: e.pos });
        },
    };
    let d = match rst_escaped_link_destination_transform(rd) {
        Ok(t) => t,
        Err(e) => {
            return Err(ParseError { kind: e.kind, pos: e.pos });
        },
    };
    if d.len() == 0 {
        return Err(ParseError { kind: ParseErrorKind::MissingMandatoryField, pos: 0 });
    }
    let empty = vstd::slice::slice_subrange(i, 0, 0);
    proof {
        assert(empty@ =~= Seq::<u8>::empty());
    }
    Ok((rem, (n, d, Text::Borrowed(empty))))
}

/// The raw label and destination of a backtick-quoted reference definition
/// `` _`label`: destination ``, or `None` when that shape does not match —
/// in which case the unquoted form is tried instead.
pub open spec fn quoted_label(s: Seq<u8>) -> Option<(Seq<u8>, Seq<u8>)> {
    if s.len() >= 2 && s[1] == 96 {
        let sc = scan_escaped(s, 2, s.len() as int, 96, 96, false);
        if sc.1 == ScanEnd::Delim {
            let q = sc.0;
            if q + 2 < s.len() && s[q + 1] == 58 && s[q + 2] == 32 {
                Some((s.subrange(2, q), s.subrange(q + 3, s.len() as int)))
            } else {
                None
            }
        } else {
            None
        }
    } else {
        None
    }
}

/// The raw label and destination of a reference definition line, or the
/// error kind. The line must start with the underscore marker; the label is
/// either backtick-quoted and ended by `` `: ``, or unquoted and ended by
/// `: `, where an unescaped colon not followed by a space is illegal.
pub open spec fn rst_parse_link_ref_spec(s: Seq<u8>) -> (
    Option<(Seq<u8>, Seq<u8>)>,
    ParseErrorKind,
) {
    if s.len() == 0 || s[0] != 95 {
        (None, ParseErrorKind::MissingOpeningMarker)
    } else {
        match quoted_label(s) {
            Some(nd) => (Some(nd), ParseErrorKind::InvalidFieldName),
            None => {
                let sc = scan_escaped(s, 1, s.len() as int, 58, 58, false);
                if sc.1 == ScanEnd::BadEscape {
                    (None, ParseErrorKind::InvalidEscapeSequence)
                } else if sc.1 == ScanEnd::Input {
                    (None, ParseErrorKind::MalformedReferenceLabel)
                } else {
                    let c = sc.0;
                    if c + 1 < s.len() && s[c + 1] == 32 {
                        (
                            Some((s.subrange(1, c), s.subrange(c + 2, s.len() as int))),
                            ParseErrorKind::InvalidFieldName,
                        )
                    } else {
                        (None, ParseErrorKind::MalformedReferenceLabel)
                    }
                }
            },
        }
    }
}

/// Split a reference definition line into its raw label and raw destination
/// without resolving escapes. The whole line is consumed, so the returned
/// remaining slice is always empty.
pub fn rst_parse_link_ref<'a>(i: &'a [u8]) -> (r: Result<
    (&'a [u8], (&'a [u8], &'a [u8])),
    ParseError,
>)
    ensures
        match r {
            Ok((rest, nd)) => rst_parse_link_ref_spec(i@).0 matches Some(x) && nd.0@ == x.0
                && nd.1@ == x.1 && rest@ == Seq::<u8>::empty() && x.0.len() <= i@.len()
                && x.1.len() <= i@.len(),
            Err(e) => rst_parse_link_ref_spec(i@).0 is None && e.kind == rst_parse_link_ref_spec(
                i@,
            ).1 && e.pos <= i@.len(),
        },
{
    if i.len() == 0 || i[0] != 95 {
        return Err(ParseError { kind: ParseErrorKind::MissingOpeningMarker, pos: 0 });
    }
    let empty = vstd::slice::slice_subrange(i, 0, 0);
    proof {
        assert(empty@ =~= Seq::<u8>::empty());
    }
    if i.len() >= 2 && i[1] == 96 {
        let (q, rq) = scan_run(i, 2, i.len(), 96, 96, false);
        if rq == ScanEnd::Delim && q < i.len() - 2 && i[q + 1] == 58 && i[q + 2] == 32 {
            let name = vstd::slice::slice_subrange(i, 2, q);
            let dest = vstd::slice::slice_subrange(i, q + 3, i.len());
            return Ok((empty, (name, dest)));
        }
    }
    let (c, rc) = scan_run(i, 1, i.len(), 58, 58, false);
    if rc == ScanEnd::BadEscape {
        return Err(ParseError { kind: ParseErrorKind::InvalidEscapeSequence, pos: c });
    }
    if rc == ScanEnd::Input {
        return Err(ParseError { kind: ParseErrorKind::MalformedReferenceLabel, pos: c });
    }
    if c < i.len() - 1 && i[c + 1] == 32 {
        let name = vstd::slice::slice_subrange(i, 1, c);
        let dest = vstd::slice::slice_subrange(i, c + 2, i.len());
        Ok((empty, (name, dest)))
    } else {
        Err(ParseError { kind: ParseErrorKind::MalformedReferenceLabel, pos: c })
    }
}

/// The error kind — if any — with which the full link-reference parse fails:
/// the explicit markup block must open, its joined line must be a reference
/// definition, both transforms must succeed, and the transformed destination
/// must be non-empty.
pub open spec fn rst_link_ref_err(s: Seq<u8>) -> Option<ParseErrorKind> {
    match block_spec(s) {
        None => Some(ParseErrorKind::MissingOpeningMarker),
        Some(fsp) => {
            let line = join_fragments(fsp.0);
            match rst_parse_link_ref_spec(line).0 {
                None => Some(rst_parse_link_ref_spec(line).1),
                Some(nd) => {
                    if name_transform_spec(nd.0) is None {
                        Some(ParseErrorKind::InvalidEscapeSequence)
                    } else if dest_transform_spec(nd.1) is None {
                        Some(ParseErrorKind::InvalidEscapeSequence)
                    } else if dest_transform_spec(nd.1)->Some_0.len() == 0 {
                        Some(ParseErrorKind::MissingMandatoryField)
                    } else {
                        None
                    }
                },
            }
        },
    }
}

/// Parse a reStructuredText link-reference definition, which must start at
/// the beginning of a line (optionally indented) with the explicit markup
/// marker. Returns the unconsumed suffix and the transformed
/// `(name, destination, title)` triple; the destination is never empty and
/// the title always is. When the block spanned several joined lines the
/// returned name and destination are owned; for a single-line block each is
/// a view into the input exactly when its transform changed nothing.
pub fn rst_link_ref<'a>(i: &'a [u8]) -> (r: Result<
    (&'a [u8], (Text<'a>, Text<'a>, Text<'a>)),
    ParseError,
>)
    ensures
        match r {
            Ok((rem, t3)) => {
                &&& block_spec(i@) matches Some(fsp)
                &&& rst_parse_link_ref_spec(join_fragments(fsp.0)).0 matches Some(nd)
                &&& rst_link_ref_err(i@) is None
                &&& rem@ == i@.skip(fsp.1)
                &&& Some(t3.0@) == name_transform_spec(nd.0)
                &&& Some(t3.1@) == dest_transform_spec(nd.1)
                &&& t3.1@.len() > 0
                &&& t3.2@ == Seq::<u8>::empty()
                &&& fsp.0.len() == 1 ==> (t3.0.is_borrowed() <==> name_transform_spec(nd.0)
                    == Some(nd.0))
                &&& fsp.0.len() == 1 ==> (t3.1.is_borrowed() <==> dest_transform_spec(nd.1)
                    == Some(nd.1))
                &&& fsp.0.len() != 1 ==> !t3.0.is_borrowed() && !t3.1.is_borrowed()
            },
            Err(e) => rst_link_ref_err(i@) == Some(e.kind) && e.pos <= i@.len(),
        },
{
    let (rem, blk) = match rst_explicit_markup_block(i) {
        Ok(p) => p,
        Err(e) => {
            return Err(e);
        },
    };
    let empty = vstd::slice::slice_subrange(i, 0, 0);
    proof {
        assert(empty@ =~= Seq::<u8>::empty());
    }
    match blk {
        Text::Borrowed(line) => {
            let (_, (rn, rd)) = match rst_parse_link_ref(line) {
                Ok(p) => p,
                Err(e) => {
                    return Err(e);
                },
            };
            let n = match rst_escaped_link_name_transform(rn) {
                Ok(t) => t,
                Err(e) => {
                    return Err(ParseError { kind: e.kind, pos: e.pos });
                },
            };
            let d = match rst_escaped_link_destination_transform(rd) {
                Ok(t) => t,
                Err(e) => {
                    return Err(ParseError { kind: e.kind, pos: e.pos });
                },
            };
            if d.len() == 0 {
                return Err(ParseError { kind: ParseErrorKind::MissingMandatoryField, pos: 0 });
            }
            Ok((rem, (n, d, Text::Borrowed(empty))))
        },
        Text::Owned(v) => {
            let line = v.as_slice();
            let (_, (rn, rd)) = match rst_parse_link_ref(line) {
                Ok(p) => p,
                Err(e) => {
                    return Err(ParseError { kind: e.kind, pos: 0 });
                },
            };
            let n = match rst_escaped_link_name_transform(rn) {
                Ok(t) => t,
                Err(e) => {
                    return Err(ParseError { kind: e.kind, pos: 0 });
                },
            };
            let d = match rst_escaped_link_destination_transform(rd) {
                Ok(t) => t,
                Err(e) => {
                    return Err(ParseError { kind: e.kind, pos: 0 });
                },
            };
            if d.len() == 0 {
                return Err(ParseError { kind: ParseErrorKind::MissingMandatoryField, pos: 0 });
            }
            let n_owned = Text::Owned(vstd::slice::slice_to_vec(n.as_bytes()));
            let d_owned = Text::Owned(vstd::slice::slice_to_vec(d.as_bytes()));
            Ok((rem, (n_owned, d_owned, Text::Borrowed(empty))))
        },
    }
}

} // verus!
