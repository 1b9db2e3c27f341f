use markcomp::visitor::SimpleVisitor;

#[test]
fn link_buffering_emits_href_first() {
    let v = SimpleVisitor::new(&b"[text](http://x)".to_vec()).expect("document should compile");
    let out = v.output();
    assert_eq!(out, b"<p><a href=\"http://x\">text</a></p>".to_vec());
}

#[test]
fn footnotes_are_deferred_to_the_end() {
    let v = SimpleVisitor::new(&b"[^1]: note\nbody".to_vec()).expect("document should compile");
    let out = v.output();
    assert_eq!(
        out,
        b"<p>body</p><Footnotes><p><span id=\"fn1\">1.</span><FootnoteRet href=\"#ref1\"/> note</p></Footnotes>"
            .to_vec()
    );
}

#[test]
fn footnote_reference_links_both_ways() {
    let v = SimpleVisitor::new(&b"see[^1] it".to_vec()).expect("document should compile");
    let out = v.output();
    assert_eq!(
        out,
        b"<p>see<FootnoteRef href=\"#fn1\" id=\"ref1\">1</FootnoteRef> it</p>".to_vec()
    );
}

#[test]
fn emphasis_and_text_are_rendered_to_spec() {
    let v = SimpleVisitor::new(&b"so _very_ nice".to_vec()).expect("document should compile");
    assert_eq!(v.output(), b"<p>so <em>very</em> nice</p>".to_vec());

    let v = SimpleVisitor::new(&b"a < b & c".to_vec()).expect("document should compile");
    assert_eq!(v.output(), b"<p>a &lt; b &amp; c</p>".to_vec());
}

#[test]
fn malformed_frontmatter_is_fatal() {
    assert!(SimpleVisitor::new(&b"---\n{{{\n---\nrest".to_vec()).is_err());
    assert!(SimpleVisitor::new(&b"---\ntitle: only\n---\nrest".to_vec()).is_err());
}

#[test]
fn frontmatter_is_parsed_and_not_emitted() {
    let v = SimpleVisitor::new(&b"---\ntitle: a\ndate: b\ndescription: c\n---\nhello".to_vec())
        .expect("document should compile");
    let fm = v.frontmatter.as_ref().expect("frontmatter should be set");
    assert_eq!(fm.title, "a");
    assert_eq!(fm.date, "b");
    assert_eq!(fm.description, "c");
    let out = v.output();
    assert_eq!(out, b"<p>hello</p>".to_vec());
}

#[test]
fn heading_and_strong_render() {
    let v = SimpleVisitor::new(&b"## Hi *there*\n".to_vec()).expect("document should compile");
    let out = v.output();
    assert_eq!(out, b"<h2> Hi <strong>there</strong></h2>".to_vec());
}

#[test]
fn inline_code_is_escaped() {
    let v = SimpleVisitor::new(&b"a `x<y` b".to_vec()).expect("document should compile");
    let out = v.output();
    assert_eq!(out, b"<p>a <code>x&lt;y</code> b</p>".to_vec());
}

#[test]
fn highlighted_code_block_is_wrapped() {
    let v = SimpleVisitor::new(&b"```rs\nfn hello() {}\n```\n".to_vec())
        .expect("document should compile");
    let out = v.output();
    let text = String::from_utf8(out).expect("output should be text");
    assert!(text.starts_with("<div class=\"codeblock\">"));
    assert!(text.ends_with("</div>"));
    assert!(text.contains("hello"));
}

#[test]
fn unknown_language_falls_back_to_blockquote() {
    let v = SimpleVisitor::new(&b"```nosuchlang\nx < y\n```\n".to_vec())
        .expect("document should compile");
    let out = v.output();
    assert_eq!(out, b"<blockquote>x &lt; y\n</blockquote>".to_vec());
}
