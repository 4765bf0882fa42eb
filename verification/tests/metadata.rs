use vela_core::source::metadata::{strip_html, xml_text};

#[test]
fn nfo_text() {
    let xml =
        "<movie><title>Heat</title><year>1995</year><plot><![CDATA[A crew.]]></plot></movie>";
    assert_eq!(xml_text(xml, "title"), Some("Heat".into()));
    assert_eq!(xml_text(xml, "year"), Some("1995".into()));
    assert_eq!(xml_text(xml, "plot"), Some("A crew.".into()));
    assert_eq!(xml_text(xml, "missing"), None);
}

#[test]
fn html_stripping() {
    assert_eq!(strip_html("<p>Hello <b>world</b></p>"), "Hello world");
}
