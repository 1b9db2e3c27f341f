use markcomp::text::{html_encode, trim_ascii_vec};

#[test]
fn escaping_covers_the_five_specials() {
    let mut out = Vec::new();
    html_encode(&b"a&b<c>d\"e'f".to_vec(), &mut out);
    assert_eq!(out, b"a&amp;b&lt;c&gt;d&quot;e&apos;f".to_vec());
}

#[test]
fn trim_strips_ascii_whitespace() {
    assert_eq!(trim_ascii_vec(&b"  x y\t\n".to_vec()), b"x y".to_vec());
    assert_eq!(trim_ascii_vec(&b" \t ".to_vec()), b"".to_vec());
}
