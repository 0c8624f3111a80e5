use instant_xml::ser::{Context as NsContext, Prefix};
use instant_xml::{display_to_xml, to_writer, Error, Id, Serializer, ToXml};

#[test]
fn element_with_namespaces_and_attribute() {
    let mut s = Serializer::new();
    let cx = NsContext {
        default_ns: "urn:a",
        prefixes: vec![Prefix { prefix: "x", ns: "urn:x" }],
    };
    let root = s.write_start("root", "urn:a", Some(cx)).unwrap();
    assert_eq!(s.default_ns(), "urn:a");
    assert_eq!(s.prefix("urn:x"), Some("x"));
    s.write_attr("id", "urn:x", "1").unwrap();
    s.write_attr("plain", "urn:a", &7u8).unwrap();
    s.end_start().unwrap();

    let child = s.write_start("c", "urn:x", None).unwrap();
    s.end_start().unwrap();
    s.write_str("t").unwrap();
    s.write_close(child).unwrap();

    let empty = s.write_start("e", "urn:a", None).unwrap();
    s.end_empty().unwrap();
    drop(empty);

    s.write_close(root).unwrap();
    assert_eq!(
        s.output(),
        r#"<root xmlns="urn:a" xmlns:x="urn:x" x:id="1" plain="7"><x:c>t</x:c><e /></root>"#
    );
    // Closing the root gives back the namespaces in scope before it.
    assert_eq!(s.prefix("urn:x"), None);
    assert_eq!(s.default_ns(), "");
}

#[test]
fn prefix_already_in_scope_is_not_declared_again() {
    let mut s = Serializer::new();
    let outer = NsContext { default_ns: "", prefixes: vec![Prefix { prefix: "x", ns: "urn:x" }] };
    let root = s.write_start("r", "", Some(outer)).unwrap();
    s.end_start().unwrap();
    let inner = NsContext { default_ns: "", prefixes: vec![Prefix { prefix: "y", ns: "urn:x" }] };
    let child = s.write_start("c", "", Some(inner)).unwrap();
    s.end_start().unwrap();
    s.write_close(child).unwrap();
    assert_eq!(s.prefix("urn:x"), Some("x"));
    s.write_close(root).unwrap();
    assert_eq!(s.into_string(), r#"<r xmlns:x="urn:x"><c></c></r>"#);
}

#[test]
fn out_of_order_calls_are_refused() {
    let mut s = Serializer::new();
    assert_eq!(s.end_start(), Err(Error::UnexpectedState("invalid state for element end")));
    assert_eq!(s.end_empty(), Err(Error::UnexpectedState("invalid state for element end")));
    assert_eq!(
        s.write_attr("a", "", "v"),
        Err(Error::UnexpectedState("invalid state for attribute"))
    );
    let el = s.write_start("a", "", None).unwrap();
    assert_eq!(s.write_str("x"), Err(Error::UnexpectedState("invalid state for scalar")));
    assert!(matches!(
        s.write_start("b", "", None),
        Err(Error::UnexpectedState("invalid state for element start"))
    ));
    assert_eq!(
        s.write_attr("a", "urn:unknown", "v"),
        Err(Error::UnexpectedState("unknown prefix"))
    );
    assert_eq!(s.write_close(el), Err(Error::UnexpectedState("invalid state for close element")));
    assert_eq!(s.output(), "<a");
}

#[test]
fn scalar_for_a_field() {
    let mut s = Serializer::new();
    display_to_xml("1 &amp; 2", Some(Id { ns: "", name: "n" }), &mut s).unwrap();
    display_to_xml("raw", None, &mut s).unwrap();
    "a&b".serialize(Some(Id { ns: "urn:q", name: "q" }), &mut s).unwrap();
    assert_eq!(s.output(), r#"<n>1 &amp; 2</n>raw<q xmlns="urn:q">a&amp;b</q>"#);
}

#[test]
fn writer_is_appended_to() {
    let mut out = String::from("head:");
    to_writer(&12u32, &mut out).unwrap();
    to_writer("<", &mut out).unwrap();
    assert_eq!(out, "head:12&lt;");
}

#[test]
fn prefixed_element_declares_its_own_default_namespace() {
    let mut s = Serializer::new();
    let outer = NsContext { default_ns: "", prefixes: vec![Prefix { prefix: "b", ns: "bar" }] };
    let a = s.write_start("A", "", Some(outer)).unwrap();
    s.end_start().unwrap();
    assert_eq!(s.output(), r#"<A xmlns:b="bar">"#);
    let inner = NsContext { default_ns: "bar", prefixes: vec![] };
    let b = s.write_start("B", "bar", Some(inner)).unwrap();
    assert_eq!(b.prefix, Some("b"));
    assert_eq!(s.output(), r#"<A xmlns:b="bar"><b:B xmlns="bar""#);
    assert_eq!(s.default_ns(), "bar");
    s.end_start().unwrap();
    let prop = s.write_start("b_prop", "bar", None).unwrap();
    s.end_start().unwrap();
    s.write_str("42").unwrap();
    s.write_close(prop).unwrap();
    s.write_close(b).unwrap();
    s.write_close(a).unwrap();
    assert_eq!(
        s.into_string(),
        r#"<A xmlns:b="bar"><b:B xmlns="bar"><b_prop>42</b_prop></b:B></A>"#
    );
}

#[test]
fn attribute_in_prefixed_namespace() {
    let mut s = Serializer::new();
    let cx = NsContext { default_ns: "", prefixes: vec![Prefix { prefix: "bar", ns: "BAR" }] };
    let _el = s.write_start("NoPrefixAttrNs", "", Some(cx)).unwrap();
    assert_eq!(s.output(), r#"<NoPrefixAttrNs xmlns:bar="BAR""#);
    s.write_attr("flag", "BAR", &true).unwrap();
    assert_eq!(s.output(), r#"<NoPrefixAttrNs xmlns:bar="BAR" bar:flag="true""#);
    s.end_empty().unwrap();
    assert_eq!(s.output(), r#"<NoPrefixAttrNs xmlns:bar="BAR" bar:flag="true" />"#);
}
