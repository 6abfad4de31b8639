use parse_hyperlinks::error::ParseErrorKind;
use parse_hyperlinks::html::{attribute, attribute_list, html_link, parse_attributes, tag_a_opening};

#[test]
fn test_html_link() {
    let expected = (
        &b"abc"[..],
        (&b"W3Schools"[..], &b"https://www.w3schools.com/"[..], &b"W3S"[..]),
    );
    assert_eq!(
        html_link(br#"<a title="W3S" href="https://www.w3schools.com/">W3Schools</a>abc"#)
            .unwrap(),
        expected
    );
}

#[test]
fn test_tag_a_opening() {
    let expected = (&b"abc"[..], (&b"http://getreu.net"[..], &b"My blog"[..]));
    assert_eq!(
        tag_a_opening(br#"<a href="http://getreu.net" title="My blog">abc"#).unwrap(),
        expected
    );
}

#[test]
fn test_parse_attributes() {
    let expected = (&b""[..], (&b"http://getreu.net"[..], &b"My blog"[..]));
    assert_eq!(
        parse_attributes(br#"abc href="http://getreu.net" abc title="My blog" abc"#).unwrap(),
        expected
    );

    let e = parse_attributes(br#" href="http://getreu.net" href="http://blog.getreu.net" "#)
        .unwrap_err();
    assert_eq!(e.kind, ParseErrorKind::DuplicateField);

    let e = parse_attributes(br#" href="http://getreu.net" title="a" title="b" "#).unwrap_err();
    assert_eq!(e.kind, ParseErrorKind::DuplicateField);

    let e = parse_attributes(br#" title="title" "#).unwrap_err();
    assert_eq!(e.kind, ParseErrorKind::MissingMandatoryField);
}

#[test]
fn test_attribute_list() {
    let expected: (&[u8], Vec<(&[u8], &[u8])>) = (
        b"",
        vec![
            (&b""[..], &b""[..]),
            (&b"href"[..], &b"http://getreu.net"[..]),
            (&b""[..], &b""[..]),
            (&b"title"[..], &b"My blog"[..]),
            (&b""[..], &b""[..]),
        ],
    );
    assert_eq!(
        attribute_list(br#"abc href="http://getreu.net" abc title="My blog" abc"#).unwrap(),
        expected
    );
}

#[test]
fn test_attribute() {
    let expected = (&b" abc"[..], (&b"href"[..], &b"http://getreu.net"[..]));
    assert_eq!(attribute(br#"href="http://getreu.net" abc"#).unwrap(), expected);

    let expected = (&b" abc"[..], (&b""[..], &b""[..]));
    assert_eq!(attribute(b"bool abc").unwrap(), expected);

    let e = attribute(b"1name").unwrap_err();
    assert_eq!(e.kind, ParseErrorKind::InvalidFieldName);
    assert_eq!(e.pos, 0);

    let e = attribute(br#"1name="http://getreu.net"#).unwrap_err();
    assert_eq!(e.kind, ParseErrorKind::InvalidFieldName);
}

#[test]
fn test_html_link_end_to_end() {
    // A full anchor followed by more document text.
    let expected = (&b"rest"[..], (&b"N"[..], &b"https://x.test/"[..], &b"T"[..]));
    assert_eq!(
        html_link(br#"<a href="https://x.test/" title="T">N</a>rest"#).unwrap(),
        expected
    );
}

#[test]
fn test_html_link_duplicate_href_fails() {
    let e = html_link(br#"<a href="d1" href="d2">n</a>"#).unwrap_err();
    assert_eq!(e.kind, ParseErrorKind::DuplicateField);
}

#[test]
fn test_html_link_missing_markers() {
    let e = html_link(b"no anchor here").unwrap_err();
    assert_eq!(e.kind, ParseErrorKind::MissingOpeningMarker);
    assert_eq!(e.pos, 0);

    let e = html_link(br#"<a href="x" name"#).unwrap_err();
    assert_eq!(e.kind, ParseErrorKind::UnterminatedConstruct);

    let e = html_link(br#"<a href="x">name with no closing tag"#).unwrap_err();
    assert_eq!(e.kind, ParseErrorKind::UnterminatedConstruct);
}

#[test]
fn test_html_link_empty_or_missing_href() {
    // An empty href value counts as absent.
    let e = html_link(br#"<a href="">n</a>"#).unwrap_err();
    assert_eq!(e.kind, ParseErrorKind::MissingMandatoryField);

    let e = html_link(br#"<a title="t">n</a>"#).unwrap_err();
    assert_eq!(e.kind, ParseErrorKind::MissingMandatoryField);

    // A second occurrence is allowed while the slot is still empty.
    let expected = (&b""[..], (&b"n"[..], &b"d2"[..], &b""[..]));
    assert_eq!(html_link(br#"<a href="" href="d2">n</a>"#).unwrap(), expected);
}

#[test]
fn test_html_link_boolean_href_not_recorded() {
    // A bare `href` token is a boolean attribute, not an occurrence of the
    // mandatory field.
    let e = html_link(br#"<a href>n</a>"#).unwrap_err();
    assert_eq!(e.kind, ParseErrorKind::MissingMandatoryField);
}

#[test]
fn test_attribute_malformed_value() {
    // An opened value quote must be closed.
    let e = attribute(br#"href="x"#).unwrap_err();
    assert_eq!(e.kind, ParseErrorKind::UnterminatedConstruct);
    // An `=` must introduce a quoted value.
    let e = attribute(b"a=b").unwrap_err();
    assert_eq!(e.kind, ParseErrorKind::InvalidFieldName);
}
