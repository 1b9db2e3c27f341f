use markcomp::pull::Writer;

#[test]
fn test_codeblock() {
    let writer = Writer::new("~~~rs\nfn hello() {}\n~~~").expect("document should compile");
    let output = writer.output();
    let text = String::from_utf8(output).expect("output should be text");
    assert!(text.starts_with("<div class=\"codeblock\">"));
    assert!(text.ends_with("</div>"));
    assert!(text.contains("hello"));
}

#[test]
fn paragraph_and_strong() {
    let writer = Writer::new("hello **world**").expect("document should compile");
    assert_eq!(writer.output(), b"<p>hello <strong>world</strong></p>".to_vec());
}

#[test]
fn text_is_escaped() {
    let writer = Writer::new("a < b").expect("document should compile");
    assert_eq!(writer.output(), b"<p>a &lt; b</p>".to_vec());
}

#[test]
fn link_markup() {
    let writer = Writer::new("[text](http://x)").expect("document should compile");
    assert_eq!(
        writer.output(),
        b"<p><a href=\"http://x\">text</a></p>".to_vec()
    );
}

#[test]
fn footnotes_deferred_in_writer() {
    let writer = Writer::new("body[^1]\n\n[^1]: note").expect("document should compile");
    let out = writer.output();
    let text = String::from_utf8(out).expect("output should be text");
    assert!(text.starts_with("<p>body<FootnoteRef href=\"#fn1\" id=\"ref1\">1</FootnoteRef></p>"));
    assert!(text.contains("<Footnotes><li id=\"fn1\">"));
    assert!(text.ends_with("</li></Footnotes>"));
}

#[test]
fn writer_frontmatter_roundtrip() {
    let writer = Writer::new("---\ntitle: a\ndate: b\ndescription: c\n---\n\nhi")
        .expect("document should compile");
    let fm = writer.frontmatter.as_ref().expect("frontmatter should be set");
    assert_eq!(fm.title, "a");
    assert_eq!(fm.date, "b");
    assert_eq!(fm.description, "c");
    assert_eq!(writer.output(), b"<p>hi</p>".to_vec());
}

#[test]
fn writer_bad_frontmatter_is_fatal() {
    assert!(Writer::new("---\n{{{\n---\n\nhi").is_err());
}

#[test]
fn unknown_language_blockquote() {
    let writer = Writer::new("```nosuchlang\nx < y\n```").expect("document should compile");
    assert_eq!(
        writer.output(),
        b"<blockquote>x &lt; y\n</blockquote>".to_vec()
    );
}
