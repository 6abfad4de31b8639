//! The HTML inline anchor parser.
//!
//! An anchor is the literal opening `"<a "`, an attribute list up to the
//! closing `>`, the literal inner text up to `"</a>"` as the link name (no
//! entity decoding), and the closing tag. The attribute list is a
//! whitespace-separated sequence of `name="value"` tokens and bare boolean
//! identifiers; an identifier must start with an ASCII letter. The mandatory
//! `href` and the optional `title` may each occur at most once with a
//! non-empty value already recorded; a missing or empty `href` is rejected.

use crate::chars::{byte_is_alnum, byte_is_alpha, byte_is_space, is_alnum, is_alpha, is_space,
    lemma_trim_at, trim_spec};
use crate::error::{ParseError, ParseErrorKind};
use vstd::prelude::*;

verus! {

/// The first position at or after `j` that is not an ASCII letter or digit.
pub open spec fn alnum_end(s: Seq<u8>, j: int) -> int
    decreases s.len() - j,
{
    if j >= s.len() {
        s.len() as int
    } else if !is_alnum(s[j]) {
        j
    } else {
        alnum_end(s, j + 1)
    }
}

/// The first position at or after `j` that is not whitespace.
pub open spec fn ws_end(s: Seq<u8>, j: int) -> int
    decreases s.len() - j,
{
    if j >= s.len() {
        s.len() as int
    } else if !is_space(s[j]) {
        j
    } else {
        ws_end(s, j + 1)
    }
}

/// The first position at or after `j` holding the byte `b`, or the input's
/// length when there is none.
pub open spec fn find_byte(s: Seq<u8>, b: u8, j: int) -> int
    decreases s.len() - j,
{
    if j >= s.len() {
        s.len() as int
    } else if s[j] == b {
        j
    } else {
        find_byte(s, b, j + 1)
    }
}

/// The attribute token at position `j`: either `name="value"` or a bare
/// boolean identifier, which is recognized and then discarded as an empty
/// pair. On success the triple carries key, value and the position just
/// after the token; on failure the second component is the error kind.
pub open spec fn token_at(s: Seq<u8>, j: int) -> (Option<(Seq<u8>, Seq<u8>, int)>, ParseErrorKind) {
    if j >= s.len() || !is_alpha(s[j]) {
        (None, ParseErrorKind::InvalidFieldName)
    } else {
        let e = alnum_end(s, j);
        if e + 1 < s.len() && s[e] == 61 && s[e + 1] == 34 {
            let q = find_byte(s, 34, e + 2);
            if q >= s.len() {
                (None, ParseErrorKind::UnterminatedConstruct)
            } else {
                (Some((s.subrange(j, e), s.subrange(e + 2, q), q + 1)), ParseErrorKind::InvalidFieldName)
            }
        } else if e < s.len() && s[e] == 61 {
            (None, ParseErrorKind::InvalidFieldName)
        } else {
            (Some((Seq::empty(), Seq::empty(), e)), ParseErrorKind::InvalidFieldName)
        }
    }
}

/// The attribute tokens from position `j` to the end of the (trimmed) input,
/// separated by runs of whitespace. On failure the second component is the
/// error kind; on success it is meaningless.
pub open spec fn attr_scan_at(s: Seq<u8>, j: int) -> (
    Option<Seq<(Seq<u8>, Seq<u8>)>>,
    ParseErrorKind,
)
    decreases s.len() - j,
{
    let tk = token_at(s, j);
    match tk.0 {
        None => (None, tk.1),
        Some(nvj) => {
            let j2 = nvj.2;
            if j2 >= s.len() {
                (Some(seq![(nvj.0, nvj.1)]), ParseErrorKind::InvalidFieldName)
            } else if is_space(s[j2]) {
                let j3 = ws_end(s, j2);
                if j3 >= s.len() {
                    (Some(seq![(nvj.0, nvj.1)]), ParseErrorKind::InvalidFieldName)
                } else if j < j3 && j3 <= s.len() {
                    let rest = attr_scan_at(s, j3);
                    match rest.0 {
                        None => (None, rest.1),
                        Some(attrs) => (
                            Some(seq![(nvj.0, nvj.1)] + attrs),
                            ParseErrorKind::InvalidFieldName,
                        ),
                    }
                } else {
                    (None, ParseErrorKind::InvalidFieldName)
                }
            } else {
                (None, ParseErrorKind::InvalidFieldName)
            }
        },
    }
}

/// The bytes of the mandatory attribute key, `href`.
pub open spec fn href_key() -> Seq<u8> {
    seq![104u8, 114u8, 101u8, 102u8]
}

/// The bytes of the optional attribute key, `title`.
pub open spec fn title_key() -> Seq<u8> {
    seq![116u8, 105u8, 116u8, 108u8, 101u8]
}

/// Scan the attribute pairs from position `j` with the values collected so
/// far, recording `href` and `title` values. A recognized key met again while
/// its slot already holds a non-empty value is a duplicate; after the scan an
/// empty `href` slot means the mandatory field is missing.
pub open spec fn extract_fields(
    attrs: Seq<(Seq<u8>, Seq<u8>)>,
    j: int,
    h: Seq<u8>,
    t: Seq<u8>,
) -> (Option<(Seq<u8>, Seq<u8>)>, ParseErrorKind)
    decreases attrs.len() - j,
{
    if j < 0 || j >= attrs.len() {
        if h.len() == 0 {
            (None, ParseErrorKind::MissingMandatoryField)
        } else {
            (Some((h, t)), ParseErrorKind::InvalidFieldName)
        }
    } else {
        let kv = attrs[j];
        if kv.0 == href_key() {
            if h.len() > 0 {
                (None, ParseErrorKind::DuplicateField)
            } else {
                extract_fields(attrs, j + 1, kv.1, t)
            }
        } else if kv.0 == title_key() {
            if t.len() > 0 {
                (None, ParseErrorKind::DuplicateField)
            } else {
                extract_fields(attrs, j + 1, h, kv.1)
            }
        } else {
            extract_fields(attrs, j + 1, h, t)
        }
    }
}

/// The `(destination, title)` pair extracted from a raw attribute list, or
/// the error kind: the list is trimmed, tokenized, and its `href` and
/// `title` fields are collected.
pub open spec fn parse_attributes_spec(s: Seq<u8>) -> (
    Option<(Seq<u8>, Seq<u8>)>,
    ParseErrorKind,
) {
    let t = trim_spec(s);
    if t.len() == 0 {
        (None, ParseErrorKind::InvalidFieldName)
    } else {
        let sc = attr_scan_at(t, 0);
        match sc.0 {
            None => (None, sc.1),
            Some(attrs) => extract_fields(attrs, 0, Seq::empty(), Seq::empty()),
        }
    }
}

/// The result of parsing an `<a ...>` opening tag: the position just after
/// the closing `>`, the destination and the title; or the error kind.
pub open spec fn tag_a_opening_spec(s: Seq<u8>) -> (
    Option<(int, Seq<u8>, Seq<u8>)>,
    ParseErrorKind,
) {
    if !(s.len() >= 3 && s[0] == 60 && s[1] == 97 && s[2] == 32) {
        (None, ParseErrorKind::MissingOpeningMarker)
    } else {
        let g = find_byte(s, 62, 3);
        if g >= s.len() {
            (None, ParseErrorKind::UnterminatedConstruct)
        } else {
            let pa = parse_attributes_spec(s.subrange(3, g));
            match pa.0 {
                None => (None, pa.1),
                Some(ht) => (Some((g + 1, ht.0, ht.1)), ParseErrorKind::InvalidFieldName),
            }
        }
    }
}

/// The first position at or after `j` where the closing tag `</a>` starts,
/// or the input's length when there is none.
pub open spec fn find_close_tag(s: Seq<u8>, j: int) -> int
    decreases s.len() - j,
{
    if j + 4 > s.len() {
        s.len() as int
    } else if s[j] == 60 && s[j + 1] == 47 && s[j + 2] == 97 && s[j + 3] == 62 {
        j
    } else {
        find_close_tag(s, j + 1)
    }
}

/// The result of parsing a whole HTML anchor: the unconsumed suffix and the
/// `(name, destination, title)` triple; or the error kind.
pub open spec fn html_link_spec(s: Seq<u8>) -> (
    Option<(Seq<u8>, Seq<u8>, Seq<u8>, Seq<u8>)>,
    ParseErrorKind,
) {
    let ta = tag_a_opening_spec(s);
    match ta.0 {
        None => (None, ta.1),
        Some(rht) => {
            let rem1 = s.skip(rht.0);
            let c = find_close_tag(rem1, 0);
            if c >= rem1.len() {
                (None, ParseErrorKind::UnterminatedConstruct)
            } else {
                (
                    Some((rem1.skip(c + 4), rem1.subrange(0, c), rht.1, rht.2)),
                    ParseErrorKind::InvalidFieldName,
                )
            }
        },
    }
}

proof fn lemma_alnum_end_at(s: Seq<u8>, j: int, e: int)
    requires
        0 <= j <= e <= s.len(),
        forall|k: int| j <= k < e ==> is_alnum(s[k]),
        e == s.len() || !is_alnum(s[e]),
    ensures
        alnum_end(s, j) == e,
    decreases e - j,
{
    if j == e {
    } else {
        lemma_alnum_end_at(s, j + 1, e);
    }
}

proof fn lemma_ws_end_at(s: Seq<u8>, j: int, e: int)
    requires
        0 <= j <= e <= s.len(),
        forall|k: int| j <= k < e ==> is_space(s[k]),
        e == s.len() || !is_space(s[e]),
    ensures
        ws_end(s, j) == e,
    decreases e - j,
{
    if j == e {
    } else {
        lemma_ws_end_at(s, j + 1, e);
    }
}

proof fn lemma_find_byte_at(s: Seq<u8>, b: u8, j: int, e: int)
    requires
        0 <= j <= e <= s.len(),
        forall|k: int| j <= k < e ==> s[k] != b,
        e == s.len() || s[e] == b,
    ensures
        find_byte(s, b, j) == e,
    decreases e - j,
{
    if j == e {
    } else {
        lemma_find_byte_at(s, b, j + 1, e);
    }
}

/// A successful field extraction always carries a non-empty destination.
proof fn lemma_extract_some_nonempty(attrs: Seq<(Seq<u8>, Seq<u8>)>, j: int, h: Seq<u8>, t: Seq<u8>)
    ensures
        extract_fields(attrs, j, h, t).0 matches Some(p) ==> p.0.len() > 0,
    decreases attrs.len() - j,
{
    if j < 0 || j >= attrs.len() {
    } else {
        let kv = attrs[j];
        lemma_extract_some_nonempty(attrs, j + 1, kv.1, t);
        lemma_extract_some_nonempty(attrs, j + 1, h, kv.1);
        lemma_extract_some_nonempty(attrs, j + 1, h, t);
    }
}

/// Does this key spell `href`?
fn is_href(name: &[u8]) -> (r: bool)
    ensures
        r == (name@ == href_key()),
{
    if name.len() == 4 && name[0] == 104 && name[1] == 114 && name[2] == 101 && name[3] == 102 {
        assert(name@ =~= href_key());
        true
    } else {
        assert(name@ != href_key());
        false
    }
}

/// Does this key spell `title`?
fn is_title(name: &[u8]) -> (r: bool)
    ensures
        r == (name@ == title_key()),
{
    if name.len() == 5 && name[0] == 116 && name[1] == 105 && name[2] == 116 && name[3] == 108
        && name[4] == 101 {
        assert(name@ =~= title_key());
        true
    } else {
        assert(name@ != title_key());
        false
    }
}

/// Parse one attribute token: `name="value"`, or a bare boolean identifier,
/// which is consumed but handed back as an empty pair. The identifier must
/// start with an ASCII letter. Returns the unconsumed suffix and the pair.
pub fn attribute<'a>(i: &'a [u8]) -> (r: Result<(&'a [u8], (&'a [u8], &'a [u8])), ParseError>)
    ensures
        match r {
            Ok((rest, nv)) => token_at(i@, 0).0 matches Some(nvj) && nv.0@ == nvj.0 && nv.1@
                == nvj.1 && rest@ == i@.skip(nvj.2),
            Err(e) => token_at(i@, 0).0 is None && e.kind == token_at(i@, 0).1 && e.pos
                <= i@.len(),
        },
{
    if i.len() == 0 || !byte_is_alpha(i[0]) {
        return Err(ParseError { kind: ParseErrorKind::InvalidFieldName, pos: 0 });
    }
    let mut e: usize = 0;
    while e < i.len() && byte_is_alnum(i[e])
        invariant
            0 <= e <= i@.len(),
            forall|k: int| 0 <= k < e ==> is_alnum(i@[k]),
        decreases i@.len() - e,
    {
        e = e + 1;
    }
    proof {
        lemma_alnum_end_at(i@, 0, e as int);
    }
    if e < i.len() && i[e] == 61 && e + 1 < i.len() && i[e + 1] == 34 {
        let mut q: usize = e + 2;
        while q < i.len() && i[q] != 34
            invariant
                e + 2 <= q <= i@.len(),
                forall|k: int| e + 2 <= k < q ==> i@[k] != 34,
            decreases i@.len() - q,
        {
            q = q + 1;
        }
        proof {
            lemma_find_byte_at(i@, 34, e as int + 2, q as int);
        }
        if q == i.len() {
            return Err(ParseError { kind: ParseErrorKind::UnterminatedConstruct, pos: e + 2 });
        }
        let name = vstd::slice::slice_subrange(i, 0, e);
        let value = vstd::slice::slice_subrange(i, e + 2, q);
        let rest = vstd::slice::slice_subrange(i, q + 1, i.len());
        proof {
            assert(i@.subrange(q as int + 1, i@.len() as int) =~= i@.skip(q as int + 1));
        }
        Ok((rest, (name, value)))
    } else if e < i.len() && i[e] == 61 {
        Err(ParseError { kind: ParseErrorKind::InvalidFieldName, pos: e })
    } else {
        let empty = vstd::slice::slice_subrange(i, 0, 0);
        let rest = vstd::slice::slice_subrange(i, e, i.len());
        proof {
            assert(i@.subrange(0, 0) =~= Seq::<u8>::empty());
            assert(i@.subrange(e as int, i@.len() as int) =~= i@.skip(e as int));
        }
        Ok((rest, (empty, empty)))
    }
}

/// Parse a whitespace-separated attribute list, trimmed of surrounding
/// whitespace, into its `(key, value)` pairs; a boolean attribute appears as
/// an empty pair. The whole trimmed input must consist of attribute tokens,
/// so the returned unconsumed suffix is always empty.
pub fn attribute_list<'a>(i: &'a [u8]) -> (r: Result<
    (&'a [u8], Vec<(&'a [u8], &'a [u8])>),
    ParseError,
>)
    ensures
        match r {
            Ok((rest, v)) => attr_scan_at(trim_spec(i@), 0).0 matches Some(attrs) && trim_spec(
                i@,
            ).len() > 0 && v@.len() == attrs.len() && (forall|m: int|
                0 <= m < attrs.len() ==> v@[m].0@ == attrs[m].0 && v@[m].1@ == attrs[m].1)
                && rest@ == Seq::<u8>::empty(),
            Err(e) => (trim_spec(i@).len() == 0 ==> e.kind == ParseErrorKind::InvalidFieldName) && (
            trim_spec(i@).len() > 0 ==> attr_scan_at(trim_spec(i@), 0).0 is None && e.kind
                == attr_scan_at(trim_spec(i@), 0).1) && e.pos <= i@.len(),
        },
{
    let mut st: usize = 0;
    while st < i.len() && byte_is_space(i[st])
        invariant
            0 <= st <= i@.len(),
            forall|k: int| 0 <= k < st ==> is_space(i@[k]),
        decreases i@.len() - st,
    {
        st = st + 1;
    }
    let mut en: usize = i.len();
    while en > st && byte_is_space(i[en - 1])
        invariant
            st <= en <= i@.len(),
            forall|k: int| en <= k < i@.len() ==> is_space(i@[k]),
        decreases en,
    {
        en = en - 1;
    }
    proof {
        lemma_trim_at(i@, st as int, en as int);
    }
    let tl = vstd::slice::slice_subrange(i, st, en);
    let ghost ts: Seq<u8> = trim_spec(i@);
    proof {
        assert(tl@ == ts);
    }
    if tl.len() == 0 {
        return Err(ParseError { kind: ParseErrorKind::InvalidFieldName, pos: st });
    }
    let mut v: Vec<(&'a [u8], &'a [u8])> = Vec::new();
    let ghost mut aseq: Seq<(Seq<u8>, Seq<u8>)> = Seq::empty();
    let mut cur: usize = 0;
    let mut done: bool = false;
    proof {
        match attr_scan_at(ts, 0).0 {
            Some(rest0) => {
                assert(Seq::<(Seq<u8>, Seq<u8>)>::empty() + rest0 =~= rest0);
            },
            None => {},
        }
    }
    while !done
        invariant
            0 <= cur <= ts.len(),
            i@.len() == i.len(),
            tl@ == ts,
            ts == trim_spec(i@),
            st <= en <= i@.len(),
            ts == i@.subrange(st as int, en as int),
            ts.len() > 0,
            st + ts.len() <= i@.len(),
            v@.len() == aseq.len(),
            forall|m: int| 0 <= m < aseq.len() ==> v@[m].0@ == aseq[m].0 && v@[m].1@ == aseq[m].1,
            !done ==> cur < ts.len(),
            !done ==> match attr_scan_at(ts, cur as int).0 {
                Some(rest) => attr_scan_at(ts, 0).0 == Some(aseq + rest),
                None => attr_scan_at(ts, 0).0 is None && attr_scan_at(ts, 0).1 == attr_scan_at(
                    ts,
                    cur as int,
                ).1,
            },
            done ==> attr_scan_at(ts, 0).0 == Some(aseq),
        decreases (if done {
            0
        } else {
            ts.len() - cur + 1
        }),
    {
        if !byte_is_alpha(tl[cur]) {
            return Err(ParseError { kind: ParseErrorKind::InvalidFieldName, pos: st + cur });
        }
        let mut e: usize = cur;
        while e < tl.len() && byte_is_alnum(tl[e])
            invariant
                cur <= e <= ts.len(),
                tl@ == ts,
                forall|k: int| cur <= k < e ==> is_alnum(ts[k]),
            decreases ts.len() - e,
        {
            e = e + 1;
        }
        proof {
            lemma_alnum_end_at(ts, cur as int, e as int);
        }
        let name: &'a [u8];
        let value: &'a [u8];
        let next: usize;
        if e < tl.len() && tl[e] == 61 && e + 1 < tl.len() && tl[e + 1] == 34 {
            let mut q: usize = e + 2;
            while q < tl.len() && tl[q] != 34
                invariant
                    e + 2 <= q <= ts.len(),
                    tl@ == ts,
                    forall|k: int| e + 2 <= k < q ==> ts[k] != 34,
                decreases ts.len() - q,
            {
                q = q + 1;
            }
            proof {
                lemma_find_byte_at(ts, 34, e as int + 2, q as int);
            }
            if q == tl.len() {
                return Err(
                    ParseError { kind: ParseErrorKind::UnterminatedConstruct, pos: st + e + 2 },
                );
            }
            name = vstd::slice::slice_subrange(i, st + cur, st + e);
            value = vstd::slice::slice_subrange(i, st + e + 2, st + q);
            next = q + 1;
            proof {
                assert(name@ =~= ts.subrange(cur as int, e as int));
                assert(value@ =~= ts.subrange(e as int + 2, q as int));
            }
        } else if e < tl.len() && tl[e] == 61 {
            return Err(ParseError { kind: ParseErrorKind::InvalidFieldName, pos: st + e });
        } else {
            name = vstd::slice::slice_subrange(i, st, st);
            value = vstd::slice::slice_subrange(i, st, st);
            next = e;
            proof {
                assert(name@ =~= Seq::<u8>::empty());
            }
        }
        let ghost tok: (Seq<u8>, Seq<u8>) = (name@, value@);
        let ghost aseq_old = aseq;
        v.push((name, value));
        proof {
            aseq = aseq.push(tok);
            assert(token_at(ts, cur as int).0 == Some((tok.0, tok.1, next as int)));
        }
        if next >= tl.len() {
            done = true;
            proof {
                assert(attr_scan_at(ts, cur as int).0 == Some(seq![tok]));
                assert(aseq_old + seq![tok] =~= aseq);
            }
        } else if byte_is_space(tl[next]) {
            let mut wss: usize = next;
            while wss < tl.len() && byte_is_space(tl[wss])
                invariant
                    next <= wss <= ts.len(),
                    tl@ == ts,
                    forall|k: int| next <= k < wss ==> is_space(ts[k]),
                decreases ts.len() - wss,
            {
                wss = wss + 1;
            }
            proof {
                lemma_ws_end_at(ts, next as int, wss as int);
            }
            if wss == tl.len() {
                done = true;
                proof {
                    assert(attr_scan_at(ts, cur as int).0 == Some(seq![tok]));
                    assert(aseq_old + seq![tok] =~= aseq);
                }
            } else {
                proof {
                    match attr_scan_at(ts, wss as int).0 {
                        Some(rest2) => {
                            assert(attr_scan_at(ts, cur as int).0 == Some(seq![tok] + rest2));
                            assert(aseq_old + (seq![tok] + rest2) =~= aseq + rest2);
                        },
                        None => {
                            assert(attr_scan_at(ts, cur as int).0 is None);
                            assert(attr_scan_at(ts, cur as int).1 == attr_scan_at(
                                ts,
                                wss as int,
                            ).1);
                        },
                    }
                }
                cur = wss;
            }
        } else {
            return Err(ParseError { kind: ParseErrorKind::InvalidFieldName, pos: st + next });
        }
    }
    let rest = vstd::slice::slice_subrange(i, en, en);
    proof {
        assert(rest@ =~= Seq::<u8>::empty());
    }
    Ok((rest, v))
}

/// Extract the mandatory `href` and the optional `title` from a raw
/// attribute list. A second occurrence of either key over a non-empty slot is
/// a duplicate; an `href` that is absent — or never given a non-empty value —
/// is rejected. On success the destination is non-empty and the title
/// defaults to empty.
pub fn parse_attributes<'a>(i: &'a [u8]) -> (r: Result<
    (&'a [u8], (&'a [u8], &'a [u8])),
    ParseError,
>)
    ensures
        match r {
            Ok((rest, ht)) => parse_attributes_spec(i@).0 == Some((ht.0@, ht.1@)) && ht.0@.len()
                > 0 && rest@ == Seq::<u8>::empty(),
            Err(e) => parse_attributes_spec(i@).0 is None && e.kind == parse_attributes_spec(
                i@,
            ).1 && e.pos <= i@.len(),
        },
{
    let (rest, v) = match attribute_list(i) {
        Ok(p) => p,
        Err(e) => {
            return Err(e);
        },
    };
    let ghost attrs = attr_scan_at(trim_spec(i@), 0).0->Some_0;
    let mut h: &[u8] = vstd::slice::slice_subrange(i, 0, 0);
    let mut t: &[u8] = vstd::slice::slice_subrange(i, 0, 0);
    let mut m: usize = 0;
    proof {
        assert(h@ =~= Seq::<u8>::empty());
        assert(t@ =~= Seq::<u8>::empty());
    }
    while m < v.len()
        invariant
            0 <= m <= v@.len(),
            v@.len() == attrs.len(),
            forall|k: int| 0 <= k < attrs.len() ==> v@[k].0@ == attrs[k].0 && v@[k].1@ == attrs[k].1,
            trim_spec(i@).len() > 0,
            attr_scan_at(trim_spec(i@), 0).0 == Some(attrs),
            extract_fields(attrs, 0, Seq::empty(), Seq::empty()) == extract_fields(
                attrs,
                m as int,
                h@,
                t@,
            ),
        decreases v@.len() - m,
    {
        let (name, value) = v[m];
        if is_href(name) {
            if h.len() > 0 {
                return Err(ParseError { kind: ParseErrorKind::DuplicateField, pos: 0 });
            }
            h = value;
        } else if is_title(name) {
            if t.len() > 0 {
                return Err(ParseError { kind: ParseErrorKind::DuplicateField, pos: 0 });
            }
            t = value;
        }
        m = m + 1;
    }
    if h.len() == 0 {
        return Err(ParseError { kind: ParseErrorKind::MissingMandatoryField, pos: i.len() });
    }
    Ok((rest, (h, t)))
}

/// Parse an `<a ...>` opening tag: the literal `"<a "`, the attribute list up
/// to the closing `>`, and the `>` itself. Returns the unconsumed suffix and
/// the `(destination, title)` pair.
pub fn tag_a_opening<'a>(i: &'a [u8]) -> (r: Result<(&'a [u8], (&'a [u8], &'a [u8])), ParseError>)
    ensures
        match r {
            Ok((rem, ht)) => tag_a_opening_spec(i@).0 matches Some(rht) && rem@ == i@.skip(rht.0)
                && ht.0@ == rht.1 && ht.1@ == rht.2 && ht.0@.len() > 0,
            Err(e) => tag_a_opening_spec(i@).0 is None && e.kind == tag_a_opening_spec(i@).1
                && e.pos <= i@.len(),
        },
{
    if i.len() < 3 || i[0] != 60 || i[1] != 97 || i[2] != 32 {
        return Err(ParseError { kind: ParseErrorKind::MissingOpeningMarker, pos: 0 });
    }
    let mut g: usize = 3;
    while g < i.len() && i[g] != 62
        invariant
            3 <= g <= i@.len(),
            forall|k: int| 3 <= k < g ==> i@[k] != 62,
        decreases i@.len() - g,
    {
        g = g + 1;
    }
    proof {
        lemma_find_byte_at(i@, 62, 3, g as int);
    }
    if g == i.len() {
        return Err(ParseError { kind: ParseErrorKind::UnterminatedConstruct, pos: 3 });
    }
    let interior = vstd::slice::slice_subrange(i, 3, g);
    match parse_attributes(interior) {
        Err(e) => Err(ParseError { kind: e.kind, pos: 3 + e.pos }),
        Ok((_, (h, t))) => {
            let rem = vstd::slice::slice_subrange(i, g + 1, i.len());
            proof {
                assert(rem@ =~= i@.skip(g as int + 1));
                match parse_attributes_spec(interior@).0 {
                    Some(ht0) => {
                        lemma_extract_some_nonempty(
                            attr_scan_at(trim_spec(interior@), 0).0->Some_0,
                            0,
                            Seq::empty(),
                            Seq::empty(),
                        );
                    },
                    None => {},
                }
            }
            Ok((rem, (h, t)))
        },
    }
}

/// Parse an HTML hyperlink. The input must start with the opening tag
/// marker; the inner text up to the closing tag is the link's name, taken
/// verbatim (no entity decoding). Returns the unconsumed suffix and the
/// `(name, destination, title)` triple; the destination is never empty.
pub fn html_link<'a>(i: &'a [u8]) -> (r: Result<
    (&'a [u8], (&'a [u8], &'a [u8], &'a [u8])),
    ParseError,
>)
    ensures
        match r {
            Ok((rem, ndt)) => html_link_spec(i@).0 matches Some(x) && rem@ == x.0 && ndt.0@ == x.1
                && ndt.1@ == x.2 && ndt.2@ == x.3 && ndt.1@.len() > 0,
            Err(e) => html_link_spec(i@).0 is None && e.kind == html_link_spec(i@).1 && e.pos
                <= i@.len(),
        },
{
    let (rem1, (h, t)) = match tag_a_opening(i) {
        Ok(p) => p,
        Err(e) => {
            return Err(e);
        },
    };
    if rem1.len() < 4 {
        proof {
            lemma_find_close_at(rem1@, 0);
        }
        return Err(ParseError { kind: ParseErrorKind::UnterminatedConstruct, pos: 0 });
    }
    let lim: usize = rem1.len() - 4;
    let mut c: usize = 0;
    let mut found: bool = false;
    while c <= lim && !found
        invariant
            0 <= c <= lim + 1,
            lim + 4 == rem1@.len(),
            found ==> c <= lim && rem1@[c as int] == 60 && rem1@[c as int + 1] == 47
                && rem1@[c as int + 2] == 97 && rem1@[c as int + 3] == 62,
            forall|k: int|
                0 <= k < c ==> !(#[trigger] rem1@[k] == 60 && rem1@[k + 1] == 47 && rem1@[k + 2]
                    == 97 && rem1@[k + 3] == 62),
        decreases lim + 1 - c + (if found { 0int } else { 1int }),
    {
        if rem1[c] == 60 && rem1[c + 1] == 47 && rem1[c + 2] == 97 && rem1[c + 3] == 62 {
            found = true;
        } else {
            c = c + 1;
        }
    }
    proof {
        lemma_find_close_at(rem1@, c as int);
    }
    if !found {
        return Err(
            ParseError { kind: ParseErrorKind::UnterminatedConstruct, pos: 0 },
        );
    }
    let name = vstd::slice::slice_subrange(rem1, 0, c);
    let rem = vstd::slice::slice_subrange(rem1, c + 4, rem1.len());
    proof {
        assert(rem@ =~= rem1@.skip(c as int + 4));
    }
    Ok((rem, (name, h, t)))
}

/// After a scan that saw no closing tag before `c`, `find_close_tag` from 0
/// is `c` when a closing tag starts there, and the sentinel length when the
/// remaining input is too short to hold one.
proof fn lemma_find_close_at(s: Seq<u8>, c: int)
    requires
        0 <= c,
        forall|k: int|
            0 <= k < c ==> !(#[trigger] s[k] == 60 && s[k + 1] == 47 && s[k + 2] == 97 && s[k + 3]
                == 62),
        c + 4 > s.len() || (s[c] == 60 && s[c + 1] == 47 && s[c + 2] == 97 && s[c + 3] == 62),
    ensures
        find_close_tag(s, 0) == if c + 4 <= s.len() {
            c
        } else {
            s.len() as int
        },
{
    lemma_find_close_from(s, 0, c);
}

proof fn lemma_find_close_from(s: Seq<u8>, j: int, c: int)
    requires
        0 <= j <= c,
        forall|k: int|
            0 <= k < c ==> !(#[trigger] s[k] == 60 && s[k + 1] == 47 && s[k + 2] == 97 && s[k + 3]
                == 62),
        c + 4 > s.len() || (s[c] == 60 && s[c + 1] == 47 && s[c + 2] == 97 && s[c + 3] == 62),
    ensures
        find_close_tag(s, j) == if c + 4 <= s.len() {
            c
        } else {
            s.len() as int
        },
    decreases s.len() - j,
{
    if j + 4 > s.len() {
    } else if j == c {
    } else {
        lemma_find_close_from(s, j + 1, c);
    }
}


/// When the attribute scan has met the end of the trimmed input with the
/// `href` slot still empty, the extraction reports the mandatory field as
/// missing — provided every `href` occurrence carries an empty value, no two
/// `title` occurrences repeat a non-empty value, and a non-empty `title`
/// slot always stems from an earlier `title` occurrence.
proof fn lemma_extract_missing(attrs: Seq<(Seq<u8>, Seq<u8>)>, pos: int, h: Seq<u8>, t: Seq<u8>)
    requires
        0 <= pos <= attrs.len(),
        h.len() == 0,
        forall|k: int| #![trigger attrs[k]]
            0 <= k < attrs.len() && attrs[k].0 == href_key() ==> attrs[k].1.len() == 0,
        forall|i2: int, j2: int| #![trigger attrs[i2], attrs[j2]]
            0 <= i2 < j2 < attrs.len() && attrs[i2].0 == title_key() && attrs[j2].0 == title_key()
                ==> attrs[i2].1.len() == 0,
        t.len() > 0 ==> exists|m: int| #![trigger attrs[m]]
            0 <= m < pos && attrs[m].0 == title_key() && attrs[m].1 == t,
    ensures
        extract_fields(attrs, pos, h, t).0 is None,
        extract_fields(attrs, pos, h, t).1 == ParseErrorKind::MissingMandatoryField,
    decreases attrs.len() - pos,
{
    if pos >= attrs.len() {
    } else {
        let kv = attrs[pos];
        if kv.0 == href_key() {
            lemma_extract_missing(attrs, pos + 1, kv.1, t);
        } else if kv.0 == title_key() {
            if t.len() > 0 {
                let m = choose|m: int|
                    0 <= m < pos && attrs[m].0 == title_key() && #[trigger] attrs[m].1 == t;
                assert(attrs[m].1.len() == 0);
                assert(false);
            } else {
                assert(attrs[pos].0 == title_key() && attrs[pos].1 == kv.1);
                lemma_extract_missing(attrs, pos + 1, h, kv.1);
            }
        } else {
            lemma_extract_missing(attrs, pos + 1, h, t);
        }
    }
}

/// Once a recognized slot holds a non-empty value, a later occurrence of the
/// mandatory key `href` makes the extraction fail as a duplicate.
proof fn lemma_extract_dup_href_after(
    attrs: Seq<(Seq<u8>, Seq<u8>)>,
    pos: int,
    h: Seq<u8>,
    t: Seq<u8>,
    j: int,
)
    requires
        0 <= pos <= j < attrs.len(),
        attrs[j].0 == href_key(),
        h.len() > 0,
    ensures
        extract_fields(attrs, pos, h, t).0 is None,
        extract_fields(attrs, pos, h, t).1 == ParseErrorKind::DuplicateField,
    decreases j - pos,
{
    let kv = attrs[pos];
    if kv.0 == href_key() {
    } else if kv.0 == title_key() {
        if t.len() > 0 {
        } else {
            lemma_extract_dup_href_after(attrs, pos + 1, h, kv.1, j);
        }
    } else {
        lemma_extract_dup_href_after(attrs, pos + 1, h, t, j);
    }
}

/// Once a recognized slot holds a non-empty value, a later occurrence of the
/// optional key `title` makes the extraction fail as a duplicate.
proof fn lemma_extract_dup_title_after(
    attrs: Seq<(Seq<u8>, Seq<u8>)>,
    pos: int,
    h: Seq<u8>,
    t: Seq<u8>,
    j: int,
)
    requires
        0 <= pos <= j < attrs.len(),
        attrs[j].0 == title_key(),
        t.len() > 0,
    ensures
        extract_fields(attrs, pos, h, t).0 is None,
        extract_fields(attrs, pos, h, t).1 == ParseErrorKind::DuplicateField,
    decreases j - pos,
{
    let kv = attrs[pos];
    if kv.0 == title_key() {
    } else if kv.0 == href_key() {
        if h.len() > 0 {
        } else {
            lemma_extract_dup_title_after(attrs, pos + 1, kv.1, t, j);
        }
    } else {
        lemma_extract_dup_title_after(attrs, pos + 1, h, t, j);
    }
}

proof fn lemma_extract_dup_from(
    attrs: Seq<(Seq<u8>, Seq<u8>)>,
    pos: int,
    h: Seq<u8>,
    t: Seq<u8>,
    i: int,
    j: int,
)
    requires
        0 <= pos <= i < j < attrs.len(),
        attrs[i].0 == attrs[j].0,
        attrs[i].0 == href_key() || attrs[i].0 == title_key(),
        attrs[i].1.len() > 0,
    ensures
        extract_fields(attrs, pos, h, t).0 is None,
        extract_fields(attrs, pos, h, t).1 == ParseErrorKind::DuplicateField,
    decreases i - pos,
{
    let kv = attrs[pos];
    if kv.0 == href_key() {
        if h.len() > 0 {
        } else if pos == i {
            lemma_extract_dup_href_after(attrs, pos + 1, kv.1, t, j);
        } else {
            lemma_extract_dup_from(attrs, pos + 1, kv.1, t, i, j);
        }
    } else if kv.0 == title_key() {
        if t.len() > 0 {
        } else if pos == i {
            lemma_extract_dup_title_after(attrs, pos + 1, h, kv.1, j);
        } else {
            lemma_extract_dup_from(attrs, pos + 1, h, kv.1, i, j);
        }
    } else {
        lemma_extract_dup_from(attrs, pos + 1, h, t, i, j);
    }
}

/// Law: duplicate-field rejection. Whenever the attribute list scans into a
/// token sequence holding two occurrences of the same recognized key — the
/// mandatory `href` or the optional `title` — and the earlier occurrence
/// carries a non-empty value, the attribute extraction fails with
/// `DuplicateField`, whatever the later occurrence's value is.
pub proof fn lemma_duplicate_field_rejected(
    s: Seq<u8>,
    attrs: Seq<(Seq<u8>, Seq<u8>)>,
    i: int,
    j: int,
)
    requires
        attr_scan_at(trim_spec(s), 0).0 == Some(attrs),
        0 <= i < j < attrs.len(),
        attrs[i].0 == attrs[j].0,
        attrs[i].0 == href_key() || attrs[i].0 == title_key(),
        attrs[i].1.len() > 0,
    ensures
        parse_attributes_spec(s).0 is None,
        parse_attributes_spec(s).1 == ParseErrorKind::DuplicateField,
{
    assert(trim_spec(s).len() > 0);
    lemma_extract_dup_from(attrs, 0, Seq::empty(), Seq::empty(), i, j);
}

/// Law: mandatory-field rejection. Whenever the attribute list scans into a
/// token sequence in which every occurrence of the mandatory key `href` — if
/// any — carries an empty value, and no non-empty `title` value is repeated,
/// the attribute extraction fails with `MissingMandatoryField`.
pub proof fn lemma_missing_mandatory_rejected(s: Seq<u8>, attrs: Seq<(Seq<u8>, Seq<u8>)>)
    requires
        attr_scan_at(trim_spec(s), 0).0 == Some(attrs),
        forall|k: int| #![trigger attrs[k]]
            0 <= k < attrs.len() && attrs[k].0 == href_key() ==> attrs[k].1.len() == 0,
        forall|i2: int, j2: int| #![trigger attrs[i2], attrs[j2]]
            0 <= i2 < j2 < attrs.len() && attrs[i2].0 == title_key() && attrs[j2].0 == title_key()
                ==> attrs[i2].1.len() == 0,
    ensures
        parse_attributes_spec(s).0 is None,
        parse_attributes_spec(s).1 == ParseErrorKind::MissingMandatoryField,
{
    assert(trim_spec(s).len() > 0);
    lemma_extract_missing(attrs, 0, Seq::empty(), Seq::empty());
}

} // verus!
