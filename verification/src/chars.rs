//! Byte classification shared by the dialect parsers, and a verified
//! byte-slice comparison.

use vstd::prelude::*;

verus! {

/// Whitespace as the parsers understand it: space, tab, line feed, carriage
/// return.
pub open spec fn is_space(b: u8) -> bool {
    b == 32 || b == 9 || b == 10 || b == 13
}

/// Blank characters that may indent the first line of an explicit markup
/// block: space or tab.
pub open spec fn is_blank(b: u8) -> bool {
    b == 32 || b == 9
}

/// ASCII letter.
pub open spec fn is_alpha(b: u8) -> bool {
    (65 <= b && b <= 90) || (97 <= b && b <= 122)
}

/// ASCII letter or digit.
pub open spec fn is_alnum(b: u8) -> bool {
    is_alpha(b) || (48 <= b && b <= 57)
}

/// The characters that a backslash may escape in reStructuredText link
/// fields: backslash, backtick, colon, `<`, `>`. An escaped space is
/// recognized too, but each transform gives it its own meaning, so it is
/// handled apart from this set.
pub open spec fn is_escapable(b: u8) -> bool {
    b == 92 || b == 96 || b == 58 || b == 60 || b == 62
}

/// Runtime check for [`is_space`].
pub fn byte_is_space(b: u8) -> (r: bool)
    ensures
        r == is_space(b),
{
    b == 32 || b == 9 || b == 10 || b == 13
}

/// Runtime check for [`is_alpha`].
pub fn byte_is_alpha(b: u8) -> (r: bool)
    ensures
        r == is_alpha(b),
{
    (65 <= b && b <= 90) || (97 <= b && b <= 122)
}

/// Runtime check for [`is_alnum`].
pub fn byte_is_alnum(b: u8) -> (r: bool)
    ensures
        r == is_alnum(b),
{
    byte_is_alpha(b) || (48 <= b && b <= 57)
}

/// Runtime check for [`is_escapable`].
pub fn byte_is_escapable(b: u8) -> (r: bool)
    ensures
        r == is_escapable(b),
{
    b == 92 || b == 96 || b == 58 || b == 60 || b == 62
}

/// Content equality of two byte slices.
pub fn bytes_eq(a: &[u8], b: &[u8]) -> (r: bool)
    ensures
        r == (a@ == b@),
{
    if a.len() != b.len() {
        assert(a@.len() != b@.len());
        return false;
    }
    let mut i: usize = 0;
    while i < a.len()
        invariant
            a@.len() == b@.len(),
            i <= a@.len(),
            forall|k: int| 0 <= k < i ==> a@[k] == b@[k],
        decreases a@.len() - i,
    {
        if a[i] != b[i] {
            assert(a@ != b@);
            return false;
        }
        i = i + 1;
    }
    assert(a@ =~= b@);
    true
}

/// The input with leading whitespace removed.
pub open spec fn trim_start_spec(s: Seq<u8>) -> Seq<u8>
    decreases s.len(),
{
    if s.len() > 0 && is_space(s[0]) {
        trim_start_spec(s.skip(1))
    } else {
        s
    }
}

/// The input with trailing whitespace removed.
pub open spec fn trim_end_spec(s: Seq<u8>) -> Seq<u8>
    decreases s.len(),
{
    if s.len() > 0 && is_space(s.last()) {
        trim_end_spec(s.drop_last())
    } else {
        s
    }
}

/// The input with leading and trailing whitespace removed.
pub open spec fn trim_spec(s: Seq<u8>) -> Seq<u8> {
    trim_start_spec(trim_end_spec(s))
}

pub proof fn lemma_trim_end_at(s: Seq<u8>, b: int)
    requires
        0 <= b <= s.len(),
        forall|k: int| b <= k < s.len() ==> is_space(s[k]),
        b == 0 || !is_space(s[b - 1]),
    ensures
        trim_end_spec(s) == s.subrange(0, b),
    decreases s.len() - b,
{
    if b == s.len() {
        if s.len() > 0 && is_space(s.last()) {
            assert(false);
        }
        assert(s.subrange(0, s.len() as int) =~= s);
    } else {
        assert(is_space(s.last()));
        assert(forall|k: int| b <= k < s.drop_last().len() ==> is_space(s.drop_last()[k]));
        if b > 0 {
            assert(s.drop_last()[b - 1] == s[b - 1]);
        }
        lemma_trim_end_at(s.drop_last(), b);
        assert(s.drop_last().subrange(0, b) =~= s.subrange(0, b));
    }
}

pub proof fn lemma_trim_start_at(s: Seq<u8>, a: int)
    requires
        0 <= a <= s.len(),
        forall|k: int| 0 <= k < a ==> is_space(s[k]),
        a == s.len() || !is_space(s[a]),
    ensures
        trim_start_spec(s) == s.subrange(a, s.len() as int),
    decreases a,
{
    if a == 0 {
        assert(s.subrange(0, s.len() as int) =~= s);
    } else {
        assert(is_space(s[0]));
        assert(forall|k: int| 0 <= k < a - 1 ==> is_space(s.skip(1)[k]));
        if a < s.len() {
            assert(s.skip(1)[a - 1] == s[a]);
        }
        lemma_trim_start_at(s.skip(1), a - 1);
        assert(s.skip(1).subrange(a - 1, s.skip(1).len() as int) =~= s.subrange(
            a,
            s.len() as int,
        ));
    }
}

/// The trimmed input is exactly the subrange between the leading and
/// trailing runs of whitespace.
pub proof fn lemma_trim_at(s: Seq<u8>, a: int, b: int)
    requires
        0 <= a <= b <= s.len(),
        forall|k: int| 0 <= k < a ==> is_space(s[k]),
        forall|k: int| b <= k < s.len() ==> is_space(s[k]),
        a == b || (!is_space(s[a]) && !is_space(s[b - 1])),
    ensures
        trim_spec(s) == s.subrange(a, b),
    decreases a + b,
{
    if a == b {
        assert(forall|k: int| 0 <= k < s.len() ==> is_space(s[k]));
        lemma_trim_end_at(s, 0);
        lemma_trim_start_at(s.subrange(0, 0), 0);
        assert(s.subrange(0, 0).subrange(0, 0) =~= s.subrange(a, b));
    } else {
        lemma_trim_end_at(s, b);
        let c = s.subrange(0, b);
        assert(forall|k: int| 0 <= k < a ==> is_space(c[k]));
        assert(!is_space(c[a]));
        lemma_trim_start_at(c, a);
        assert(c.subrange(a, b) =~= s.subrange(a, b));
    }
}

} // verus!
