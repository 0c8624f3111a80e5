use chrono::{NaiveDate, NaiveDateTime};

use instant_xml::de::Context;
use instant_xml::{to_string, Accumulate, Deserializer, Error, FromXml, Id, Serializer, ToXml};

fn read<'x, T: FromXml<'x>>(xml: &'x str) -> Result<T, Error> {
    let (mut context, root) = Context::new(xml)?;
    let mut deserializer = Deserializer::new(root, &mut context);
    let mut value = T::Accumulator::default();
    T::deserialize(&mut value, "value", &mut deserializer, &mut context)?;
    value.try_done("value")
}

#[test]
fn naive_datetime_written_and_read() {
    let dt = NaiveDate::from_ymd_opt(2022, 6, 7)
        .unwrap()
        .and_hms_milli_opt(10, 11, 12, 345)
        .unwrap();
    assert_eq!(to_string(&dt).unwrap(), "2022-06-07T10:11:12.345");
    assert_eq!(read::<NaiveDateTime>("<v>2022-06-07T10:11:12.345</v>"), Ok(dt));
    assert_eq!(
        read::<NaiveDateTime>("<v>2022-06-07</v>"),
        Err(Error::Other("invalid date/time".to_string()))
    );

    let mut s = Serializer::new();
    dt.serialize(Some(Id { ns: "", name: "at" }), &mut s).unwrap();
    assert_eq!(s.output(), "<at>2022-06-07T10:11:12.345</at>");

    // Whole seconds are written without a fraction.
    let dt = NaiveDateTime::parse_from_str("2022-11-21T21:17:23", "%Y-%m-%dT%H:%M:%S").unwrap();
    let mut s = Serializer::new();
    dt.serialize(Some(Id { ns: "", name: "dt" }), &mut s).unwrap();
    assert_eq!(s.output(), "<dt>2022-11-21T21:17:23</dt>");
    assert_eq!(read::<NaiveDateTime>("<dt>2022-11-21T21:17:23</dt>"), Ok(dt));
}

#[test]
fn naive_date_written_and_read() {
    let d = NaiveDate::from_ymd_opt(1999, 12, 31).unwrap();
    assert_eq!(to_string(&d).unwrap(), "1999-12-31");
    assert_eq!(read::<NaiveDate>("<v>1999-12-31</v>"), Ok(d));
    assert_eq!(
        read::<NaiveDate>("<v>1999-13-01</v>"),
        Err(Error::Other("invalid date/time".to_string()))
    );
    assert_eq!(read::<NaiveDate>("<v/>"), Err(Error::MissingValue("value")));
}
