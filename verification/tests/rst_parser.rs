use parse_hyperlinks::error::ParseErrorKind;
use parse_hyperlinks::restructured_text::{
    rst_link, rst_link_ref, rst_parse_link, rst_parse_link_ref,
};
use parse_hyperlinks::text::Text;

fn triple<'a>(
    rem: &'a [u8],
    n: &'a [u8],
    d: &'a [u8],
) -> (&'a [u8], (Text<'a>, Text<'a>, Text<'a>)) {
    (rem, (Text::Borrowed(n), Text::Borrowed(d), Text::Borrowed(b"")))
}

#[test]
fn test_rst_link() {
    let expected = triple(b"abc", b"Python home page", b"http://www.python.org");
    assert_eq!(
        rst_link(b"`Python home page <http://www.python.org>`_abc").unwrap(),
        expected
    );
    let expected = triple(b"abc", b"Python home page", b"http://www.python.org");
    assert_eq!(
        rst_link(b"`Python home page <http://www.python.org>`__abc").unwrap(),
        expected
    );

    let expected = triple(b"", b"Python<home> page", b"http://www.python.org");
    assert_eq!(
        rst_link(br#"`Python\ \<home\> page <http://www.python.org>`_"#).unwrap(),
        expected
    );

    let expected = triple(b"", b"my news at <http://python.org>", b"http://news.python.org");
    assert_eq!(
        rst_link(br#"`my news at \<http://python.org\> <http://news.python.org>`_"#).unwrap(),
        expected
    );

    let expected = triple(
        b"",
        b"my news at <http://python.org>",
        b"http://news. <python>.org",
    );
    assert_eq!(
        rst_link(br#"`my news at \<http\://python.org\> <http:// news.\ \<python\>.org>`_"#)
            .unwrap(),
        expected
    );
}

#[test]
fn test_rst_link_ref() {
    let expected = triple(b"\nabc", b"Python: home page", b"http://www.python.org");
    assert_eq!(
        rst_link_ref(b".. _`Python: home page`: http://www.python.org\nabc").unwrap(),
        expected
    );
    let expected = triple(b"\nabc", b"Python: home page", b"http://www.python.org");
    assert_eq!(
        rst_link_ref(b"  .. _`Python: home page`: http://www.py\n     thon.org    \nabc")
            .unwrap(),
        expected
    );

    let e = rst_link_ref(b"x .. _`Python: home page`: http://www.python.org\nabc").unwrap_err();
    assert_eq!(e.kind, ParseErrorKind::MissingOpeningMarker);

    let expected = triple(b"", b"Python: `home page`", b"http://www.python .org");
    assert_eq!(
        rst_link_ref(br#".. _Python\: \`home page\`: http://www.python\ .org"#).unwrap(),
        expected
    );
    let expected = triple(b"", b"Python: `home page`", b"http://www.python .org");
    assert_eq!(
        rst_link_ref(br#".. _`Python: \`home page\``: http://www.python\ .org"#).unwrap(),
        expected
    );

    let expected = triple(b"", b"my news at <http://python.org>", b"http://news.python.org");
    assert_eq!(
        rst_link_ref(br#".. _`my news at <http://python.org>`: http://news.python.org"#).unwrap(),
        expected
    );
    let expected = triple(b"", b"my news at <http://python.org>", b"http://news.python.org");
    assert_eq!(
        rst_link_ref(br#".. _`my news at \<http://python.org\>`: http://news.python.org"#)
            .unwrap(),
        expected
    );
    let expected = triple(b"", b"my news at <http://python.org>", b"http://news.python.org");
    assert_eq!(
        rst_link_ref(br#".. _my news at \<http\://python.org\>: http://news.python.org"#)
            .unwrap(),
        expected
    );

    let expected = triple(b"", b"my news", b"http://news.<python>.org");
    assert_eq!(
        rst_link_ref(br#".. _my news: http://news.<python>.org"#).unwrap(),
        expected
    );
    let expected = triple(b"", b"my news", b"http://news.<python>.org");
    assert_eq!(
        rst_link_ref(br#".. _my news: http://news.\<python\>.org"#).unwrap(),
        expected
    );
}

#[test]
fn test_rst_parse_link() {
    let expected = (
        &b"abc"[..],
        (&b"Python home page"[..], &b"http://www.python.org"[..]),
    );
    assert_eq!(
        rst_parse_link(b"`Python home page <http://www.python.org>`_abc").unwrap(),
        expected
    );

    let expected = (
        &b""[..],
        (&br#"Python\ \<home\> page"#[..], &b"http://www.python.org"[..]),
    );
    assert_eq!(
        rst_parse_link(br#"`Python\ \<home\> page <http://www.python.org>`_"#).unwrap(),
        expected
    );

    let expected = (
        &b""[..],
        (
            &br#"my news at \<http://python.org\>"#[..],
            &b"http://news.python.org"[..],
        ),
    );
    assert_eq!(
        rst_parse_link(br#"`my news at \<http://python.org\> <http://news.python.org>`_"#)
            .unwrap(),
        expected
    );

    let expected = (
        &b""[..],
        (
            &br#"my news at \<http\://python.org\>"#[..],
            &br#"http:// news.\ \<python\>.org"#[..],
        ),
    );
    assert_eq!(
        rst_parse_link(br#"`my news at \<http\://python.org\> <http:// news.\ \<python\>.org>`_"#)
            .unwrap(),
        expected
    );
}

#[test]
fn test_rst_parse_link_ref() {
    let expected = (&b""[..], (&b"Python home page"[..], &b"http://www.python.org"[..]));
    assert_eq!(
        rst_parse_link_ref(b"_Python home page: http://www.python.org").unwrap(),
        expected
    );
    assert_eq!(
        rst_parse_link_ref(b"_`Python home page`: http://www.python.org").unwrap(),
        expected
    );

    let expected = (&b""[..], (&b"Python: home page"[..], &b"http://www.python.org"[..]));
    assert_eq!(
        rst_parse_link_ref(b"_`Python: home page`: http://www.python.org").unwrap(),
        expected
    );

    let expected = (
        &b""[..],
        (&br#"Python\: home page"#[..], &b"http://www.python.org"[..]),
    );
    assert_eq!(
        rst_parse_link_ref(br#"_Python\: home page: http://www.python.org"#).unwrap(),
        expected
    );

    let expected = (
        &b""[..],
        (
            &b"my news at <http://python.org>"[..],
            &b"http://news.python.org"[..],
        ),
    );
    assert_eq!(
        rst_parse_link_ref(br#"_`my news at <http://python.org>`: http://news.python.org"#)
            .unwrap(),
        expected
    );

    let expected = (
        &b""[..],
        (
            &br#"my news at \<http://python.org\>"#[..],
            &b"http://news.python.org"[..],
        ),
    );
    assert_eq!(
        rst_parse_link_ref(br#"_`my news at \<http://python.org\>`: http://news.python.org"#)
            .unwrap(),
        expected
    );

    let expected = (
        &b""[..],
        (
            &br#"my news at \<http\://python.org\>"#[..],
            &b"http://news.python.org"[..],
        ),
    );
    assert_eq!(
        rst_parse_link_ref(br#"_my news at \<http\://python.org\>: http://news.python.org"#)
            .unwrap(),
        expected
    );
}

#[test]
fn test_rst_link_end_to_end() {
    let expected = triple(b"rest", b"Name", b"dest");
    assert_eq!(rst_link(b"`Name <dest>`_rest").unwrap(), expected);
    let expected = triple(b"rest", b"Name", b"dest");
    assert_eq!(rst_link(b"`Name <dest>`__rest").unwrap(), expected);
}

#[test]
fn test_rst_link_ref_end_to_end() {
    let expected = triple(b"\nrest", b"A: B", b"dest");
    assert_eq!(rst_link_ref(b".. _`A: B`: dest\nrest").unwrap(), expected);
}

#[test]
fn test_rst_link_errors() {
    let e = rst_link(b"no backtick").unwrap_err();
    assert_eq!(e.kind, ParseErrorKind::MissingOpeningMarker);

    let e = rst_link(b"`never closed").unwrap_err();
    assert_eq!(e.kind, ParseErrorKind::UnterminatedConstruct);

    // No bracketed destination inside the span.
    let e = rst_link(b"`abc`_").unwrap_err();
    assert_eq!(e.kind, ParseErrorKind::MissingMandatoryField);

    // Content between the closing bracket and the span's end.
    let e = rst_link(b"`n <d> x`_").unwrap_err();
    assert_eq!(e.kind, ParseErrorKind::TrailingContentAfterDestination);

    // A destination of pure whitespace collapses to nothing.
    let e = rst_link(b"`n < >`_").unwrap_err();
    assert_eq!(e.kind, ParseErrorKind::MissingMandatoryField);
}

#[test]
fn test_rst_link_ref_errors() {
    // Unescaped colon not followed by a space, outside quoting.
    let e = rst_link_ref(b".. _a:b: c").unwrap_err();
    assert_eq!(e.kind, ParseErrorKind::MalformedReferenceLabel);

    // A bad escape in the destination of a reference line.
    let e = rst_link_ref(br#".. _n: a\;b"#).unwrap_err();
    assert_eq!(e.kind, ParseErrorKind::InvalidEscapeSequence);
}
