use std::borrow::Cow;

use instant_xml::de::{borrow_cow_slice_u8, borrow_cow_str, Context};
use instant_xml::impls::CowStrAccumulator;
use instant_xml::{from_str, from_xml_str, to_string, Accumulate, Deserializer, Error, FromXml};

/// Reads a value of `T` from the content of the root element of `xml`, for the field `value`.
fn read<'x, T: FromXml<'x>>(xml: &'x str) -> Result<T, Error> {
    let (mut context, root) = Context::new(xml)?;
    let mut deserializer = Deserializer::new(root, &mut context);
    let mut value = T::Accumulator::default();
    T::deserialize(&mut value, "value", &mut deserializer, &mut context)?;
    value.try_done("value")
}

#[test]
fn integers_read_surrounding_whitespace_aside() {
    assert_eq!(read::<i8>("<v>  -1 </v>"), Ok(-1));
    assert_eq!(read::<i16>("<v>-32456 </v>"), Ok(-32456));
    assert_eq!(read::<i32>("<v>+42</v>"), Ok(42));
    assert_eq!(read::<i64>("<v>-1245789630056 </v>"), Ok(-1245789630056));
    assert_eq!(read::<isize>("<v>-125698389 </v>"), Ok(-125698389));
    assert_eq!(read::<u8>("<v>9 </v>"), Ok(9));
    assert_eq!(read::<u16>("<v>64469   </v>"), Ok(64469));
    assert_eq!(read::<u32>("<v>6034568</v>"), Ok(6034568));
    assert_eq!(read::<u64>("<v> 99245789630056 </v>"), Ok(99245789630056));
    assert_eq!(read::<usize>("<v>125698389 </v>"), Ok(125698389));
    assert_eq!(read::<i64>("<v>-9223372036854775808</v>"), Ok(i64::MIN));
    assert_eq!(read::<u64>("<v>18446744073709551615</v>"), Ok(u64::MAX));
}

#[test]
fn integer_out_of_range_is_rejected() {
    assert_eq!(
        read::<u8>("<v>300</v>"),
        Err(Error::UnexpectedValue("unable to parse u8 from `300` for value".to_string()))
    );
    assert_eq!(
        read::<u32>("<v>-1</v>"),
        Err(Error::UnexpectedValue("unable to parse u32 from `-1` for value".to_string()))
    );
    assert_eq!(
        read::<i32>("<v>4x</v>"),
        Err(Error::UnexpectedValue("unable to parse i32 from `4x` for value".to_string()))
    );
}

#[test]
fn missing_scalar_is_a_missing_value() {
    assert_eq!(read::<i32>("<v></v>"), Err(Error::MissingValue("value")));
    assert_eq!(read::<String>("<v/>"), Ok(String::new()));
}

#[test]
fn element_where_scalar_expected() {
    assert!(matches!(read::<i32>("<v><w>1</w></v>"), Err(Error::ExpectedScalar(_))));
}

#[test]
fn booleans() {
    assert_eq!(read::<bool>("<v>true</v>"), Ok(true));
    assert_eq!(read::<bool>("<v>1</v>"), Ok(true));
    assert_eq!(read::<bool>("<v>false</v>"), Ok(false));
    assert_eq!(read::<bool>("<v>0</v>"), Ok(false));
    assert_eq!(
        read::<bool>("<v>yes</v>"),
        Err(Error::UnexpectedValue("unable to parse bool from 'yes' for value".to_string()))
    );
}

#[test]
fn characters_and_strings() {
    assert_eq!(read::<char>("<v>x</v>"), Ok('x'));
    assert!(matches!(read::<char>("<v>xy</v>"), Err(Error::UnexpectedValue(_))));
    assert_eq!(read::<String>("<v>a &amp; b</v>"), Ok("a & b".to_string()));
    assert_eq!(read::<Cow<'_, str>>("<v>plain</v>"), Ok(Cow::Owned("plain".to_string())));
    assert_eq!(read::<Option<u8>>("<v>7</v>"), Ok(Some(7)));
    assert_eq!(read::<Box<u8>>("<v>7</v>"), Ok(Box::new(7)));
    assert_eq!(read::<()>("<v>anything</v>"), Ok(()));
}

#[test]
fn invalid_entity_in_text() {
    assert!(matches!(read::<String>("<v>a &bogus; b</v>"), Err(Error::InvalidEntity(_))));
}

#[test]
fn from_str_of_scalar_root_is_rejected() {
    assert_eq!(
        from_str::<u32>("<value>1</value>"),
        Err(Error::UnexpectedValue("unexpected root element \"value\"".to_string()))
    );
    assert_eq!(
        from_str::<u32>("<value xmlns=\"urn:x\">1</value>"),
        Err(Error::UnexpectedValue(
            "unexpected root element \"value\" in namespace \"urn:x\"".to_string()
        ))
    );
}

#[test]
fn from_xml_str_through_from_str() {
    let (mut context, root) = Context::new("<v>1.5</v>").unwrap();
    let mut deserializer = Deserializer::new(root, &mut context);
    let mut value: Option<f64> = None;
    from_xml_str(&mut value, "value", &mut deserializer, &mut context).unwrap();
    assert_eq!(value, Some(1.5));
    assert_eq!(
        from_xml_str(&mut value, "value", &mut deserializer, &mut context),
        Err(Error::DuplicateValue("value"))
    );

    let (mut context, root) = Context::new("<v>abc</v>").unwrap();
    let mut deserializer = Deserializer::new(root, &mut context);
    let mut value: Option<f64> = None;
    assert!(matches!(
        from_xml_str(&mut value, "value", &mut deserializer, &mut context),
        Err(Error::UnexpectedValue(_))
    ));
}

#[test]
fn borrowed_text() {
    let (mut context, root) = Context::new("<v>abc</v>").unwrap();
    let mut deserializer = Deserializer::new(root, &mut context);
    let mut value = CowStrAccumulator::default();
    borrow_cow_str(&mut value, "value", &mut deserializer, &mut context).unwrap();
    assert!(matches!(value.try_done("value"), Ok(Cow::Borrowed("abc"))));

    let (mut context, root) = Context::new("<v>a&amp;c</v>").unwrap();
    let mut deserializer = Deserializer::new(root, &mut context);
    let mut value = CowStrAccumulator::default();
    borrow_cow_str(&mut value, "value", &mut deserializer, &mut context).unwrap();
    assert!(matches!(value.try_done("value"), Ok(Cow::Owned(s)) if s == "a&c"));
}

#[test]
fn borrowed_bytes() {
    let (mut context, root) = Context::new("<v>abc</v>").unwrap();
    let mut deserializer = Deserializer::new(root, &mut context);
    let mut value: Option<Cow<'_, [u8]>> = None;
    borrow_cow_slice_u8(&mut value, "value", &mut deserializer, &mut context).unwrap();
    assert!(matches!(value, Some(Cow::Borrowed(b"abc"))));

    let (mut context, root) = Context::new("<v>&lt;é</v>").unwrap();
    let mut deserializer = Deserializer::new(root, &mut context);
    let mut value: Option<Cow<'_, [u8]>> = None;
    borrow_cow_slice_u8(&mut value, "value", &mut deserializer, &mut context).unwrap();
    assert_eq!(value.as_deref(), Some("<é".as_bytes()));
    assert_eq!(
        borrow_cow_slice_u8(&mut value, "value", &mut deserializer, &mut context),
        Err(Error::DuplicateValue("value"))
    );
}

#[test]
fn scalars_written_alone() {
    assert_eq!(to_string(&42i32).unwrap(), "42");
    assert_eq!(to_string(&-7i8).unwrap(), "-7");
    assert_eq!(to_string(&0u8).unwrap(), "0");
    assert_eq!(to_string(&i64::MIN).unwrap(), "-9223372036854775808");
    assert_eq!(to_string(&u64::MAX).unwrap(), "18446744073709551615");
    assert_eq!(to_string(&usize::MAX).unwrap(), usize::MAX.to_string());
    assert_eq!(to_string(&isize::MIN).unwrap(), isize::MIN.to_string());
    assert_eq!(to_string(&true).unwrap(), "true");
    assert_eq!(to_string(&false).unwrap(), "false");
    assert_eq!(to_string(&'&').unwrap(), "&amp;");
    assert_eq!(to_string("a<b>'c'\"d\"").unwrap(), "a&lt;b&gt;&apos;c&apos;&quot;d&quot;");
    assert_eq!(to_string(&"plain".to_string()).unwrap(), "plain");
    assert_eq!(to_string(&Cow::Borrowed("x&y")).unwrap(), "x&amp;y");
    assert_eq!(to_string(&Some(5u16)).unwrap(), "5");
    assert_eq!(to_string(&None::<u16>).unwrap(), "");
    assert_eq!(to_string(&vec![1u8, 2, 3]).unwrap(), "123");
    assert_eq!(to_string(&Box::new(9u32)).unwrap(), "9");
}

#[test]
fn expected_scalar_names_the_node_found() {
    assert_eq!(
        read::<u8>(r#"<v><w xmlns:z="urn:z" xmlns:y="urn:y" xmlns="urn:d"/></v>"#),
        Err(Error::ExpectedScalar(
            r#"Open(Element { local: "w", default_ns: Some("urn:d"), prefix: None, level: Level { local: "w", prefix: None, default_ns: Some("urn:d"), prefixes: {"y": "urn:y", "z": "urn:z"} }, empty: true })"#
                .to_string()
        ))
    );
    assert_eq!(
        read::<String>("<v><p:w xmlns:p=\"u\"></p:w></v>"),
        Err(Error::ExpectedScalar(
            r#"Open(Element { local: "w", default_ns: None, prefix: Some("p"), level: Level { local: "w", prefix: Some("p"), default_ns: None, prefixes: {"p": "u"} }, empty: false })"#
                .to_string()
        ))
    );
}

#[test]
fn text_free_of_entities_is_borrowed() {
    assert!(matches!(read::<Cow<'_, str>>("<v>plain</v>"), Ok(Cow::Borrowed("plain"))));
    assert!(matches!(read::<Cow<'_, str>>("<v><![CDATA[a&amp;b]]></v>"), Ok(Cow::Borrowed("a&amp;b"))));
    assert!(matches!(read::<Cow<'_, str>>("<v>a&amp;b</v>"), Ok(Cow::Owned(s)) if s == "a&b"));
    assert!(matches!(read::<Cow<'_, str>>("<v/>"), Ok(Cow::Borrowed(""))));
}
