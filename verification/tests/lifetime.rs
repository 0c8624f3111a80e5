use std::borrow::Cow;

use instant_xml::de::{borrow_cow_str, Context, ContextView, DeView, Node};
use instant_xml::impls::CowStrAccumulator;
use instant_xml::{from_str, Accumulate, Deserializer, Error, ErrorView, FromXml, Id, IdView, Kind};

#[derive(Debug, Eq, PartialEq)]
struct Item<'a> {
    name: Cow<'a, str>,
}

// What `#[derive(FromXml)]` writes for `Item`, whose `name` field is marked `#[xml(borrow)]`.
impl<'xml: 'a, 'a> FromXml<'xml> for Item<'a> {
    // Read by the verifier alone; nothing calls it.
    fn matches_spec(_id: IdView, _field: Option<IdView>) -> bool {
        unreachable!()
    }

    // Read by the verifier alone; nothing calls it.
    #[allow(clippy::too_many_arguments)]
    fn deserialize_spec(
        _into: Self::Accumulator,
        _field: &'static str,
        _c: ContextView,
        _d: DeView,
        _r: Result<(), ErrorView>,
        _into_after: Self::Accumulator,
        _c_after: ContextView,
        _d_after: DeView,
    ) -> bool {
        unreachable!()
    }

    fn matches(id: Id<'_>, _field: Option<Id<'_>>) -> bool {
        id == Id { ns: "", name: "Item" }
    }

    fn deserialize(
        into: &mut Self::Accumulator,
        _field: &'static str,
        deserializer: &mut Deserializer<'xml>,
        context: &mut Context<'xml>,
    ) -> Result<(), Error> {
        let mut name: CowStrAccumulator<'xml, 'a> = CowStrAccumulator::default();
        while let Some(node) = deserializer.next(context) {
            match node? {
                Node::Open(data) => {
                    let id = deserializer.element_id(&data, context)?;
                    let mut nested = deserializer.nested(data, context);
                    if <Cow<'a, str> as FromXml<'xml>>::matches(id, Some(Id { ns: "", name: "name" })) {
                        borrow_cow_str(&mut name, "Item::name", &mut nested, context)?;
                    } else {
                        nested.ignore(context)?;
                    }
                }
                Node::Attribute(_) => {}
                node => return Err(Error::UnexpectedNode(format!("{node:?}"))),
            }
        }

        *into = Some(Item { name: name.try_done("Item::name")? });
        Ok(())
    }

    type Accumulator = Option<Self>;
    const KIND: Kind = Kind::Element;
}

#[derive(Debug, Eq, PartialEq)]
struct Wrapper<'a> {
    items: Vec<Item<'a>>,
}

// What `#[derive(FromXml)]` writes for `Wrapper`.
impl<'xml: 'a, 'a> FromXml<'xml> for Wrapper<'a> {
    // Read by the verifier alone; nothing calls it.
    fn matches_spec(_id: IdView, _field: Option<IdView>) -> bool {
        unreachable!()
    }

    // Read by the verifier alone; nothing calls it.
    #[allow(clippy::too_many_arguments)]
    fn deserialize_spec(
        _into: Self::Accumulator,
        _field: &'static str,
        _c: ContextView,
        _d: DeView,
        _r: Result<(), ErrorView>,
        _into_after: Self::Accumulator,
        _c_after: ContextView,
        _d_after: DeView,
    ) -> bool {
        unreachable!()
    }

    fn matches(id: Id<'_>, _field: Option<Id<'_>>) -> bool {
        id == Id { ns: "", name: "Wrapper" }
    }

    fn deserialize(
        into: &mut Self::Accumulator,
        _field: &'static str,
        deserializer: &mut Deserializer<'xml>,
        context: &mut Context<'xml>,
    ) -> Result<(), Error> {
        let mut items: Vec<Item<'a>> = Vec::new();
        while let Some(node) = deserializer.next(context) {
            match node? {
                Node::Open(data) => {
                    let id = deserializer.element_id(&data, context)?;
                    let mut nested = deserializer.nested(data, context);
                    if <Vec<Item<'a>> as FromXml<'xml>>::matches(id, Some(Id { ns: "", name: "items" })) {
                        <Vec<Item<'a>> as FromXml<'xml>>::deserialize(
                            &mut items,
                            "Wrapper::items",
                            &mut nested,
                            context,
                        )?;
                    } else {
                        nested.ignore(context)?;
                    }
                }
                Node::Attribute(_) => {}
                node => return Err(Error::UnexpectedNode(format!("{node:?}"))),
            }
        }

        *into = Some(Wrapper { items });
        Ok(())
    }

    type Accumulator = Option<Self>;
    const KIND: Kind = Kind::Element;
}

#[test]
fn borrow_nested() {
    let xml = "<Wrapper><Item><name>a</name></Item><Item><name>b</name></Item></Wrapper>";
    let de = from_str::<Wrapper<'_>>(xml).unwrap();
    assert!(matches!(
        de.items.as_slice(),
        [
            Item {
                name: Cow::Borrowed("a")
            },
            Item {
                name: Cow::Borrowed("b")
            },
        ]
    ));
}
