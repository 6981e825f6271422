use ogent::util::xml_escape;

#[test]
fn test_xml_escape() {
    assert_eq!(xml_escape("hello"), "hello");
    assert_eq!(xml_escape("a & b"), "a &amp; b");
    assert_eq!(xml_escape("a < b"), "a &lt; b");
    assert_eq!(xml_escape("a > b"), "a &gt; b");
    assert_eq!(xml_escape("a \" b"), "a &quot; b");
    assert_eq!(
        xml_escape("<foo bar=\"baz\">&</foo>"),
        "&lt;foo bar=&quot;baz&quot;&gt;&amp;&lt;/foo&gt;"
    );
}

#[test]
fn xml_escape_leaves_no_specials_and_unescapes_back() {
    let s = "<a href=\"x\">&amp; 'q'</a>";
    let r = xml_escape(s);
    assert!(!r.contains('<') && !r.contains('>') && !r.contains('"'));
    let back = r
        .replace("&lt;", "<")
        .replace("&gt;", ">")
        .replace("&quot;", "\"")
        .replace("&amp;", "&");
    assert_eq!(back, s);
}
