use instant_xml::de::Context;
use instant_xml::escape::{decode, encode};
use instant_xml::{from_str, to_string, Accumulate, AnyElement, Deserializer, Error, FromXml};

fn read<'x, T: FromXml<'x>>(xml: &'x str) -> Result<T, Error> {
    let (mut context, root) = Context::new(xml)?;
    let mut deserializer = Deserializer::new(root, &mut context);
    let mut value = T::Accumulator::default();
    T::deserialize(&mut value, "value", &mut deserializer, &mut context)?;
    value.try_done("value")
}

#[test]
fn decoding_undoes_encoding() {
    for s in ["", "plain", "a<b>&c\"d'e", "&amp;", "Iñtërnâ&tiônàlizætiøn", "&#65;"] {
        let encoded = encode(s).unwrap();
        assert_eq!(decode(&encoded).unwrap(), s);
    }
}

#[test]
fn integers_read_back() {
    for n in [0i64, 1, -1, 42, -9223372036854775808, 9223372036854775807] {
        let xml = format!("<v>{}</v>", to_string(&n).unwrap());
        assert_eq!(read::<i64>(&xml), Ok(n));
    }
    for n in [0u8, 9, 10, 255] {
        let xml = format!("<v>{}</v>", to_string(&n).unwrap());
        assert_eq!(read::<u8>(&xml), Ok(n));
    }
}

#[test]
fn booleans_and_characters_read_back() {
    for b in [true, false] {
        let xml = format!("<v>{}</v>", to_string(&b).unwrap());
        assert_eq!(read::<bool>(&xml), Ok(b));
    }
    for c in ['a', '&', '<', 'é'] {
        let xml = format!("<v>{}</v>", to_string(&c).unwrap());
        assert_eq!(read::<char>(&xml), Ok(c));
    }
    // Whitespace is trimmed away on reading, so a space does not come back.
    let xml = format!("<v>{}</v>", to_string(&' ').unwrap());
    assert!(read::<char>(&xml).is_err());
}

#[test]
fn strings_read_back() {
    for s in ["a<b", "x & y", "quote \" and ' apostrophe"] {
        let xml = format!("<v>{}</v>", to_string(s).unwrap());
        assert_eq!(read::<String>(&xml), Ok(s.to_string()));
    }
}

#[test]
fn owned_element_equals_borrowed_one() {
    let xml = r#"<r xmlns:p="urn:p" p:a="1"><c>t&amp;u</c><d/></r>"#;
    let elem = from_str::<AnyElement<'_>>(xml).unwrap();
    let copy = elem.clone();
    assert_eq!(copy, elem);
    assert_eq!(elem.into_owned(), copy);
}
