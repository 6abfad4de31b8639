use parse_hyperlinks::block::rst_explicit_markup_block;
use parse_hyperlinks::error::ParseErrorKind;
use parse_hyperlinks::escape::{
    remove_whitespace, rst_escaped_link_destination_transform, rst_escaped_link_name_transform,
};
use parse_hyperlinks::restructured_text::rst_link_ref;
use parse_hyperlinks::text::Text;

#[test]
fn test_rst_explicit_markup_block() {
    let r = rst_explicit_markup_block(b".. 11111").unwrap();
    assert_eq!(r, (&b""[..], Text::Borrowed(b"11111")));

    let r = rst_explicit_markup_block(b"   .. 11111\nout").unwrap();
    assert_eq!(r, (&b"\nout"[..], Text::Borrowed(b"11111")));

    let r = rst_explicit_markup_block(b"   .. 11111\n      222222\n      333333\nout").unwrap();
    assert_eq!(r, (&b"\nout"[..], Text::Borrowed(b"11111 222222 333333")));

    let r = rst_explicit_markup_block(b"   .. first\n      second\n       1indent\nout").unwrap();
    assert_eq!(r, (&b"\nout"[..], Text::Borrowed(b"first second  1indent")));

    let e = rst_explicit_markup_block(b"   ..first").unwrap_err();
    assert_eq!(e.kind, ParseErrorKind::MissingOpeningMarker);
    assert_eq!(e.pos, 3);

    let e = rst_explicit_markup_block(b"x  .. first").unwrap_err();
    assert_eq!(e.kind, ParseErrorKind::MissingOpeningMarker);
    assert_eq!(e.pos, 0);
}

#[test]
fn test_rst_escaped_link_name_transform() {
    assert_eq!(
        rst_escaped_link_name_transform(b"").unwrap(),
        Text::Borrowed(b"")
    );
    // Different than the link destination version.
    assert_eq!(
        rst_escaped_link_name_transform(b"   ").unwrap(),
        Text::Borrowed(b"   ")
    );
    // Different than the link destination version.
    assert_eq!(
        rst_escaped_link_name_transform(br#"\ \ \ "#).unwrap(),
        Text::Borrowed(b"")
    );
    assert_eq!(
        rst_escaped_link_name_transform(br#"abc`:<>abc"#).unwrap(),
        Text::Borrowed(br#"abc`:<>abc"#)
    );
    assert_eq!(
        rst_escaped_link_name_transform(br#"\:\`\<\>\\"#).unwrap(),
        Text::Borrowed(br#":`<>\"#)
    );
}

#[test]
fn test_rst_escaped_link_destination_transform() {
    assert_eq!(
        rst_escaped_link_destination_transform(b"").unwrap(),
        Text::Borrowed(b"")
    );
    // Different than the link name version.
    assert_eq!(
        rst_escaped_link_destination_transform(b"  ").unwrap(),
        Text::Borrowed(b"")
    );
    assert_eq!(
        rst_escaped_link_destination_transform(b" x x").unwrap(),
        Text::Owned(b"xx".to_vec())
    );
    // Different than the link name version.
    assert_eq!(
        rst_escaped_link_destination_transform(br#"\ \ \ "#).unwrap(),
        Text::Owned(b"   ".to_vec())
    );
    assert_eq!(
        rst_escaped_link_destination_transform(br#"abc`:<>abc"#).unwrap(),
        Text::Borrowed(br#"abc`:<>abc"#)
    );
    assert_eq!(
        rst_escaped_link_destination_transform(br#"\:\`\<\>\\"#).unwrap(),
        Text::Owned(br#":`<>\"#.to_vec())
    );
}

#[test]
fn test_remove_whitespace() {
    assert_eq!(remove_whitespace(b" abc ").unwrap(), Text::Borrowed(b"abc"));
    assert_eq!(
        remove_whitespace(b" x x").unwrap(),
        Text::Owned(b"xx".to_vec())
    );
    assert_eq!(remove_whitespace(b"  \t \r \n").unwrap(), Text::Borrowed(b""));
    assert_eq!(
        remove_whitespace(br#"\ \ \ "#).unwrap(),
        Text::Borrowed(br#"\ \ \ "#)
    );
    assert_eq!(
        remove_whitespace(br#"abc`:<>abc"#).unwrap(),
        Text::Borrowed(br#"abc`:<>abc"#)
    );
    assert_eq!(
        remove_whitespace(br#"\:\`\<\>\\"#).unwrap(),
        Text::Borrowed(br#"\:\`\<\>\\"#)
    );

    assert_eq!(
        remove_whitespace(b"http://www.py\n     thon.org").unwrap(),
        Text::Owned(b"http://www.python.org".to_vec())
    );
}

#[test]
fn test_escaped_space_asymmetry() {
    // The name transform deletes an escaped space but keeps plain whitespace.
    assert_eq!(
        rst_escaped_link_name_transform(br#"a\ b"#).unwrap(),
        Text::Borrowed(b"ab")
    );
    assert_eq!(
        rst_escaped_link_name_transform(b"a b").unwrap(),
        Text::Borrowed(b"a b")
    );
    // The destination transform restores an escaped space but deletes plain
    // whitespace, including line breaks.
    assert_eq!(
        rst_escaped_link_destination_transform(br#"a\ b"#).unwrap(),
        Text::Borrowed(b"a b")
    );
    assert_eq!(
        rst_escaped_link_destination_transform(b"a b").unwrap(),
        Text::Borrowed(b"ab")
    );
    assert_eq!(
        rst_escaped_link_destination_transform(b"a\nb").unwrap(),
        Text::Borrowed(b"ab")
    );
}

#[test]
fn test_transform_invalid_escape() {
    let e = rst_escaped_link_name_transform(br#"a\;b"#).unwrap_err();
    assert_eq!(e.kind, ParseErrorKind::InvalidEscapeSequence);
    assert_eq!(e.pos, 1);

    let e = rst_escaped_link_destination_transform(br#"\q"#).unwrap_err();
    assert_eq!(e.kind, ParseErrorKind::InvalidEscapeSequence);
    assert_eq!(e.pos, 0);

    // A trailing lone backslash cannot open an escape sequence.
    let e = rst_escaped_link_name_transform(br#"abc\"#).unwrap_err();
    assert_eq!(e.kind, ParseErrorKind::InvalidEscapeSequence);
    assert_eq!(e.pos, 3);
}

#[test]
fn test_destination_transform_idempotent() {
    // Re-running the destination transform on its own output changes nothing.
    let once = rst_escaped_link_destination_transform(br#"a\:b c\<d\>"#).unwrap();
    let twice = rst_escaped_link_destination_transform(once.as_bytes()).unwrap();
    assert_eq!(once.as_bytes(), twice.as_bytes());
    assert!(twice.is_borrowed());
}

#[test]
fn test_allocation_invariant_transforms() {
    // Unchanged input: a zero-copy view. Changed input: an owned buffer.
    assert!(rst_escaped_link_name_transform(b"plain name").unwrap().is_borrowed());
    assert!(!rst_escaped_link_name_transform(br#"a\:b"#).unwrap().is_borrowed());
    assert!(rst_escaped_link_destination_transform(b"plain").unwrap().is_borrowed());
    assert!(!rst_escaped_link_destination_transform(b"a b").unwrap().is_borrowed());
    assert!(!rst_escaped_link_destination_transform(br#"a\:b"#).unwrap().is_borrowed());
}

#[test]
fn test_allocation_invariant_block() {
    // A single-line block is a view; a joined multi-line block is owned.
    let (_, t) = rst_explicit_markup_block(b".. one line\nout").unwrap();
    assert!(t.is_borrowed());
    let (_, t) = rst_explicit_markup_block(b".. two\n   lines\nout").unwrap();
    assert!(!t.is_borrowed());
}

#[test]
fn test_allocation_invariant_link_ref() {
    // A single-line reference without escapes stays borrowed end to end.
    let (_, (n, d, _)) = rst_link_ref(b".. _n: d\nx").unwrap();
    assert!(n.is_borrowed());
    assert!(d.is_borrowed());
    // A multi-line reference forces owned outputs even without escapes.
    let (_, (n, d, _)) = rst_link_ref(b".. _n: http://a\n   b\nx").unwrap();
    assert!(!n.is_borrowed());
    assert!(!d.is_borrowed());
    assert_eq!(d, Text::Owned(b"http://ab".to_vec()));
}

#[test]
fn test_indentation_boundary() {
    // The third line is one column short of the required indentation, so the
    // block ends before it.
    let (rem, t) = rst_explicit_markup_block(b".. a\n   b\n  c").unwrap();
    assert_eq!(t, Text::Borrowed(b"a b"));
    assert_eq!(rem, &b"\n  c"[..]);
}

#[test]
fn test_text_equality_ignores_ownership() {
    assert_eq!(Text::Borrowed(b"abc"), Text::Owned(b"abc".to_vec()));
    assert!(Text::Borrowed(b"abc") != Text::Borrowed(b"abd"));
    assert_eq!(Text::Borrowed(b"abc").as_bytes(), b"abc");
    assert_eq!(Text::Owned(b"abc".to_vec()).len(), 3);
}
