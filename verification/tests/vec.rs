use std::borrow::Cow;

use instant_xml::de::{Context, ContextView, DeView, Node};
use instant_xml::{from_str, Accumulate, Deserializer, Error, ErrorView, FromXml, Id, IdView, Kind};

#[derive(Debug, Eq, PartialEq)]
struct Borrowed<'a> {
    baz: Vec<Cow<'a, str>>,
}

// What `#[derive(FromXml)]` writes for `Borrowed`, whose `baz` field is marked `#[xml(borrow)]`:
// the field's type is no `Cow` itself, so each `baz` element is read by the `FromXml` of
// `Vec<Cow<str>>`, a scalar kind, and the rest of the element is skipped.
impl<'xml: 'a, 'a> FromXml<'xml> for Borrowed<'a> {
    // Read by the verifier alone; nothing calls it.
    fn matches_spec(_id: IdView, _field: Option<IdView>) -> bool {
        unreachable!()
    }

    // Read by the verifier alone; nothing calls it.
    #[allow(clippy::too_many_arguments)]
    fn deserialize_spec(
        _into: Self::Accumulator,
        _field: &'static str,
        _c: ContextView,
        _d: DeView,
        _r: Result<(), ErrorView>,
        _into_after: Self::Accumulator,
        _c_after: ContextView,
        _d_after: DeView,
    ) -> bool {
        unreachable!()
    }

    fn matches(id: Id<'_>, _field: Option<Id<'_>>) -> bool {
        id == Id { ns: "", name: "Borrowed" }
    }

    fn deserialize(
        into: &mut Self::Accumulator,
        _field: &'static str,
        deserializer: &mut Deserializer<'xml>,
        context: &mut Context<'xml>,
    ) -> Result<(), Error> {
        let mut baz = <Vec<Cow<'a, str>> as FromXml<'xml>>::Accumulator::default();
        while let Some(node) = deserializer.next(context) {
            match node? {
                Node::Open(data) => {
                    let id = deserializer.element_id(&data, context)?;
                    let mut nested = deserializer.nested(data, context);
                    if <Vec<Cow<'a, str>> as FromXml<'xml>>::matches(id, Some(Id { ns: "", name: "baz" })) {
                        <Vec<Cow<'a, str>> as FromXml<'xml>>::deserialize(
                            &mut baz,
                            "Borrowed::baz",
                            &mut nested,
                            context,
                        )?;
                    }
                    nested.ignore(context)?;
                }
                Node::Attribute(_) => {}
                node => return Err(Error::UnexpectedNode(format!("{node:?}"))),
            }
        }
        let baz = baz.try_done("Borrowed::baz")?;
        *into = Some(Borrowed { baz });
        Ok(())
    }

    type Accumulator = Option<Self>;
    const KIND: Kind = Kind::Element;
}

#[test]
fn vec_borrow() {
    let de =
        from_str::<Borrowed<'_>>("<Borrowed><baz>a</baz><baz>a&amp;b</baz></Borrowed>").unwrap();
    assert!(matches!(
        de.baz.as_slice(),
        [Cow::Borrowed("a"), Cow::Owned(s)] if s == "a&b"
    ));

    let de = from_str::<Borrowed<'_>>("<Borrowed />").unwrap();
    assert!(de.baz.is_empty());
}

#[test]
fn vec_borrow_empty_element() {
    let xml = "<Borrowed><baz>a</baz><baz/></Borrowed>";
    let de = from_str::<Borrowed<'_>>(xml).unwrap();
    assert!(matches!(de.baz.as_slice(), [Cow::Borrowed("a"), Cow::Borrowed("")]));
}

fn read_maybe_attribute(xml: &str) -> Option<Cow<'_, str>> {
    let (mut context, root) = Context::new(xml).unwrap();
    let mut deserializer = Deserializer::new(root, &mut context);
    let mut value = <Option<Cow<'_, str>> as FromXml<'_>>::Accumulator::default();
    while let Some(node) = deserializer.next(&mut context) {
        if let Node::Attribute(attr) = node.unwrap() {
            let mut nested = deserializer.for_node(Node::AttributeValue(attr.value), &mut context);
            <Option<Cow<'_, str>> as FromXml<'_>>::deserialize(
                &mut value,
                "Bar::maybe",
                &mut nested,
                &mut context,
            )
            .unwrap();
        }
    }
    value.try_done("Bar::maybe").unwrap()
}

#[test]
fn option_borrow_attribute() {
    assert!(matches!(read_maybe_attribute(r#"<Bar maybe="a" />"#), Some(Cow::Borrowed("a"))));
    assert!(matches!(
        read_maybe_attribute(r#"<Bar maybe="a&amp;b" />"#),
        Some(Cow::Owned(s)) if s == "a&b"
    ));
    assert_eq!(read_maybe_attribute("<Bar />"), None);
}
