use instant_xml::escape::{decode, encode};

fn decode_ok(input: &str, expected: &'static str) {
    assert_eq!(decode(input).unwrap(), expected, "{input:?}");
}

fn decode_err(input: &str) {
    assert!(decode(input).is_err(), "{input:?}");
}

#[test]
fn test_decode() {
    decode_ok("foo", "foo");
    decode_ok("foo &amp; bar", "foo & bar");
    decode_ok("foo &lt; bar", "foo < bar");
    decode_ok("foo &gt; bar", "foo > bar");
    decode_ok("foo &quot; bar", "foo \" bar");
    decode_ok("foo &apos; bar", "foo ' bar");
    decode_ok("foo &amp;lt; bar", "foo &lt; bar");
    decode_ok("&amp; foo", "& foo");
    decode_ok("foo &amp;", "foo &");
    decode_ok("cbdtéda&amp;sü", "cbdtéda&sü");
    // Decimal character references
    decode_ok("&#1234;", "Ӓ");
    decode_ok("foo &#9; bar", "foo \t bar");
    decode_ok("foo &#124; bar", "foo | bar");
    decode_ok("foo &#1234; bar", "foo Ӓ bar");
    // Hexadecimal character references
    decode_ok("&#xc4;", "Ä");
    decode_ok("&#x00c4;", "Ä");
    decode_ok("foo &#x9; bar", "foo \t bar");
    decode_ok("foo &#x007c; bar", "foo | bar");
    decode_ok("foo &#xc4; bar", "foo Ä bar");
    decode_ok("foo &#x00c4; bar", "foo Ä bar");
    decode_ok("foo &#x10de; bar", "foo პ bar");

    decode_err("&");
    decode_err("&#");
    decode_err("&#;");
    decode_err("foo&");
    decode_err("&bar");
    decode_err("&foo;");
    decode_err("&foobar;");
    decode_err("cbdtéd&ampü");
}

#[test]
fn encode_unicode() {
    let input = "Iñtërnâ&tiônàlizætiøn";
    assert_eq!(encode(input).unwrap(), "Iñtërnâ&amp;tiônàlizætiøn");
}
