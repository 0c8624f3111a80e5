use instant_xml::derive::{
    read_mapping, write_mapping, ItemKind, Mapping,
    forward_enum_output_plan, forward_enum_plan, struct_output_plan, struct_plan, FieldDef,
    FieldKind, FieldOut, FieldPlan, NsSource, OutKind, Reader, Role, WrappedVariant,
};
use instant_xml::meta::{
    ContainerMeta, Delimiter, FieldMeta, MetaError, OuterAttribute, TokenTree,
};

fn ident(s: &str) -> TokenTree {
    TokenTree::Ident(s.to_string())
}

fn punct(c: char) -> TokenTree {
    TokenTree::Punct(c)
}

fn lit(s: &str) -> TokenTree {
    TokenTree::Literal(format!("{s:?}"))
}

fn xml(tokens: Vec<TokenTree>) -> OuterAttribute {
    OuterAttribute { ident: Some("xml".to_string()), list: Some(tokens) }
}

fn ns(tokens: Vec<TokenTree>) -> Vec<TokenTree> {
    vec![ident("ns"), TokenTree::Group(Delimiter::Parenthesis, tokens)]
}

fn container(tokens: Vec<TokenTree>) -> ContainerMeta {
    ContainerMeta::from_derive(&[xml(tokens)]).unwrap()
}

fn field(name: &str, tokens: Vec<TokenTree>, kind: FieldKind) -> FieldDef {
    let attrs = if tokens.is_empty() { vec![] } else { vec![xml(tokens)] };
    let meta = FieldMeta::from_field(&attrs, format!("{name:?}")).unwrap();
    FieldDef { name: name.to_string(), meta, kind }
}

#[test]
fn struct_fields_are_read_by_their_configuration() {
    // #[xml(ns("urn:c", p = "urn:p"))]
    let c = container(ns(vec![lit("urn:c"), punct(','), ident("p"), punct('='), lit("urn:p")]));
    let fields = vec![
        field("id", vec![ident("attribute")], FieldKind::Other),
        field("child", vec![], FieldKind::Other),
        field("other", ns(vec![lit("urn:o")]), FieldKind::Other),
        field("name", vec![ident("borrow")], FieldKind::CowStr),
        field("raw", vec![ident("borrow")], FieldKind::CowBytes),
        field("with", vec![ident("deserialize_with"), punct('='), lit("f")], FieldKind::Other),
        field("text", vec![ident("direct")], FieldKind::Other),
    ];
    let plan = struct_plan(&c, &fields).unwrap();
    let p = |role, ns, reader| FieldPlan { role, ns, reader };
    assert_eq!(
        plan.fields,
        vec![
            p(Role::Attribute, NsSource::Empty, Reader::FromXml),
            p(Role::Element, NsSource::Container, Reader::FromXml),
            p(Role::Element, NsSource::Field, Reader::FromXml),
            p(Role::Element, NsSource::Container, Reader::BorrowCowStr),
            p(Role::Element, NsSource::Container, Reader::BorrowCowBytes),
            p(Role::Element, NsSource::Container, Reader::With),
            p(Role::Direct, NsSource::Container, Reader::FromXml),
        ]
    );
}

#[test]
fn struct_reading_refusals() {
    let c = ContainerMeta::from_derive(&[]).unwrap();
    let fields = vec![
        field("text", vec![ident("direct")], FieldKind::Other),
        field("after", vec![], FieldKind::Other),
    ];
    assert!(matches!(
        struct_plan(&c, &fields),
        Err(MetaError::Invalid { message: "direct field must be the last" })
    ));
    let fields = vec![field(
        "text",
        vec![ident("direct"), punct(','), ident("borrow")],
        FieldKind::CowStr,
    )];
    assert!(matches!(
        struct_plan(&c, &fields),
        Err(MetaError::Invalid {
            message: "direct attribute is not supported deserialization functions"
        })
    ));
    let fields =
        vec![field("a", vec![ident("attribute"), punct(','), ident("direct")], FieldKind::Other)];
    assert!(matches!(
        struct_plan(&c, &fields),
        Err(MetaError::Invalid { message: "direct attribute is not supported for attribute fields" })
    ));
}

#[test]
fn struct_fields_are_written_by_their_configuration() {
    // #[xml(ns(bar = "BAZ", foo = "BAR"))]
    let c = container(ns(vec![
        ident("bar"),
        punct('='),
        lit("BAZ"),
        punct(','),
        ident("foo"),
        punct('='),
        lit("BAR"),
    ]));
    let fields = vec![
        field("flag", vec![ident("attribute")], FieldKind::Other),
        field("prefixed", vec![ident("attribute"), punct(',')].into_iter().chain(ns(vec![ident("bar")])).collect(), FieldKind::Other),
        field("string", ns(vec![lit("BAZ")]), FieldKind::Other),
        field("number", vec![], FieldKind::Other),
        field("custom", vec![ident("serialize_with"), punct('='), lit("f")], FieldKind::Other),
        field("text", vec![ident("direct")], FieldKind::Other),
    ];
    let plan = struct_output_plan(&c, &fields).unwrap();
    let o = |kind, ns| FieldOut { kind, ns };
    assert_eq!(
        plan.fields,
        vec![
            o(OutKind::Attribute, NsSource::Container),
            o(OutKind::Attribute, NsSource::ContainerPrefix),
            o(OutKind::Element, NsSource::Field),
            o(OutKind::Element, NsSource::Container),
            o(OutKind::With, NsSource::Container),
            o(OutKind::Direct, NsSource::Container),
        ]
    );
}

#[test]
fn struct_writing_refusals() {
    let c = container(ns(vec![ident("bar"), punct('='), lit("BAZ")]));
    let unknown = field(
        "a",
        vec![ident("attribute"), punct(',')].into_iter().chain(ns(vec![ident("baz")])).collect(),
        FieldKind::Other,
    );
    assert!(matches!(
        struct_output_plan(&c, &vec![unknown]),
        Err(MetaError::UnknownPrefix { prefix }) if prefix == "baz"
    ));
    let literal = field(
        "a",
        vec![ident("attribute"), punct(',')].into_iter().chain(ns(vec![lit("urn:x")])).collect(),
        FieldKind::Other,
    );
    let direct_attr =
        field("b", vec![ident("attribute"), punct(','), ident("direct")], FieldKind::Other);
    // A field refused at once is reported before an attribute's namespace.
    assert!(matches!(
        struct_output_plan(&c, &vec![literal, direct_attr]),
        Err(MetaError::Invalid { message: "direct attribute is not supported on attributes" })
    ));
    let literal = field(
        "a",
        vec![ident("attribute"), punct(',')].into_iter().chain(ns(vec![lit("urn:x")])).collect(),
        FieldKind::Other,
    );
    assert!(matches!(
        struct_output_plan(&c, &vec![literal]),
        Err(MetaError::Invalid { message: "attribute namespace must be a prefix identifier" })
    ));
    let with_direct = field(
        "t",
        vec![ident("direct"), punct(','), ident("serialize_with"), punct('='), lit("f")],
        FieldKind::Other,
    );
    assert!(matches!(
        struct_output_plan(&c, &vec![with_direct]),
        Err(MetaError::Invalid {
            message: "direct serialization is not supported with `serialize_with`"
        })
    ));
}

#[test]
fn transparent_structs() {
    let c = container(vec![ident("transparent")]);
    let fields = vec![field("a", vec![], FieldKind::Other), field("b", vec![], FieldKind::Other)];
    let plan = struct_output_plan(&c, &fields).unwrap();
    assert_eq!(plan.fields.len(), 2);
    let fields = vec![field("a", vec![ident("attribute")], FieldKind::Other)];
    assert!(matches!(
        struct_output_plan(&c, &fields),
        Err(MetaError::Invalid { message: "no attributes allowed on inline structs" })
    ));
    let c = container(
        vec![ident("transparent"), punct(',')].into_iter().chain(ns(vec![lit("urn:x")])).collect(),
    );
    assert!(matches!(
        struct_output_plan(&c, &vec![]),
        Err(MetaError::Invalid { message: "inline structs cannot have namespace declarations" })
    ));
    let c = container(vec![ident("transparent"), punct(','), ident("rename"), punct('='), lit("x")]);
    assert!(matches!(
        struct_output_plan(&c, &vec![]),
        Err(MetaError::Invalid { message: "inline structs cannot be renamed" })
    ));
}

fn variant(name: &str, single: bool, attrs: Vec<OuterAttribute>) -> WrappedVariant {
    WrappedVariant { name: name.to_string(), single_unnamed: single, attrs }
}

#[test]
fn wrapping_enums() {
    let c = container(vec![ident("forward")]);
    let vs = vec![variant("Foo", true, vec![]), variant("Bar", true, vec![])];
    assert_eq!(forward_enum_plan(&c, &vs).unwrap().variants, vec!["Foo", "Bar"]);
    assert_eq!(forward_enum_output_plan(&c, &vs).unwrap().variants, vec!["Foo", "Bar"]);

    assert!(matches!(
        forward_enum_plan(&c, &vec![]),
        Err(MetaError::Invalid { message: "empty enum is not supported" })
    ));
    assert_eq!(forward_enum_output_plan(&c, &vec![]).unwrap().variants.len(), 0);
    let vs = vec![variant("Foo", true, vec![]), variant("Bar", false, vec![])];
    assert!(matches!(
        forward_enum_plan(&c, &vs),
        Err(MetaError::Invalid { message: "wrapped enum variants must have 1 unnamed field" })
    ));
    let vs = vec![variant("Foo", true, vec![xml(vec![ident("rename"), punct('='), lit("x")])])];
    assert!(matches!(
        forward_enum_output_plan(&c, &vs),
        Err(MetaError::Invalid { message: "attributes not allowed on wrapped enum variants" })
    ));
    let c = container(vec![
        ident("forward"),
        punct(','),
        ident("rename_all"),
        punct('='),
        lit("snake_case"),
    ]);
    assert!(matches!(
        forward_enum_output_plan(&c, &vec![variant("Foo", true, vec![])]),
        Err(MetaError::Invalid { message: "rename_all is not allowed on wrapped enum type" })
    ));
}

#[test]
fn container_tag() {
    let c = ContainerMeta::from_derive(&[]).unwrap();
    assert_eq!(c.tag("Point"), "\"Point\"");
    let c = container(vec![ident("rename"), punct('='), lit("pt")]);
    assert_eq!(c.tag("Point"), "\"pt\"");
}

#[test]
fn non_scalar_enums_unsupported() {
    let plain = ContainerMeta::from_derive(&[]).unwrap();
    assert!(matches!(
        write_mapping(&plain, ItemKind::Enum),
        Err(MetaError::Invalid { message: "missing mode" })
    ));
    assert!(matches!(
        read_mapping(&plain, ItemKind::Enum),
        Err(MetaError::Invalid { message: "missing enum mode" })
    ));
    assert_eq!(write_mapping(&plain, ItemKind::Struct).unwrap(), Mapping::Struct);
    assert_eq!(read_mapping(&plain, ItemKind::Struct).unwrap(), Mapping::Struct);

    let scalar = container(vec![ident("scalar")]);
    assert_eq!(write_mapping(&scalar, ItemKind::Enum).unwrap(), Mapping::ScalarEnum);
    assert_eq!(read_mapping(&scalar, ItemKind::Enum).unwrap(), Mapping::ScalarEnum);
    assert!(matches!(
        write_mapping(&scalar, ItemKind::Struct),
        Err(MetaError::Invalid { message: "Scalar mode not allowed on struct type" })
    ));
    assert!(matches!(
        read_mapping(&scalar, ItemKind::Struct),
        Err(MetaError::Invalid { message: "no enum mode allowed on struct type" })
    ));

    let transparent = container(vec![ident("transparent")]);
    assert_eq!(write_mapping(&transparent, ItemKind::Struct).unwrap(), Mapping::Transparent);
    assert!(matches!(
        write_mapping(&transparent, ItemKind::Enum),
        Err(MetaError::Invalid { message: "Transparent mode not allowed on enum type" })
    ));
    let forward = container(vec![ident("forward")]);
    assert_eq!(read_mapping(&forward, ItemKind::Enum).unwrap(), Mapping::ForwardEnum);
    assert!(matches!(
        write_mapping(&forward, ItemKind::Struct),
        Err(MetaError::Invalid { message: "Forward mode not allowed on struct type" })
    ));
}
