//! Copy-on-write text: the result of a parse is either a zero-copy view into
//! the original input or an owned buffer, and the distinction is part of the
//! contract — a transform that changes nothing must hand back a view.

use crate::chars::bytes_eq;
use vstd::prelude::*;

verus! {

/// A piece of text, either borrowed from the parsed input or owned.
///
/// Equality (`==`) compares contents only, so a borrowed and an owned value
/// with the same bytes are equal; [`Text::is_borrowed`] tells them apart.
#[derive(Debug)]
pub enum Text<'a> {
    /// A zero-copy view into the original input.
    Borrowed(&'a [u8]),
    /// An independently allocated buffer, detached from the input.
    Owned(Vec<u8>),
}

impl<'a> View for Text<'a> {
    type V = Seq<u8>;

    open spec fn view(&self) -> Seq<u8> {
        match self {
            Text::Borrowed(s) => s@,
            Text::Owned(v) => v@,
        }
    }
}

impl<'a> Text<'a> {
    /// True when this text is a zero-copy view into the original input.
    pub open spec fn spec_is_borrowed(&self) -> bool {
        self is Borrowed
    }

    /// Runtime check for the borrowed/owned distinction.
    #[verifier::when_used_as_spec(spec_is_borrowed)]
    pub fn is_borrowed(&self) -> (r: bool)
        ensures
            r == self.spec_is_borrowed(),
    {
        match self {
            Text::Borrowed(_) => true,
            Text::Owned(_) => false,
        }
    }

    /// The content as a byte slice.
    pub fn as_bytes(&self) -> (r: &[u8])
        ensures
            r@ == self@,
    {
        match self {
            Text::Borrowed(s) => s,
            Text::Owned(v) => v.as_slice(),
        }
    }

    /// The number of content bytes.
    pub fn len(&self) -> (r: usize)
        ensures
            r == self@.len(),
    {
        match self {
            Text::Borrowed(s) => s.len(),
            Text::Owned(v) => v.len(),
        }
    }
}

impl<'a> PartialEq for Text<'a> {
    fn eq(&self, other: &Self) -> (r: bool) {
        bytes_eq(self.as_bytes(), other.as_bytes())
    }
}

impl<'a> vstd::std_specs::cmp::PartialEqSpecImpl for Text<'a> {
    open spec fn obeys_eq_spec() -> bool {
        true
    }

    open spec fn eq_spec(&self, other: &Text<'a>) -> bool {
        self@ == other@
    }
}

} // verus!
