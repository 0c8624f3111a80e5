use instant_xml::meta::{
    meta_items, ContainerMeta, Delimiter, Discriminant, FieldMeta, Group, MetaError, MetaItem,
    MetaState, Mode, Namespace, NamespaceMeta, NsState, OuterAttribute, TokenTree, Variant,
    VariantMeta,
};

fn ident(s: &str) -> TokenTree {
    TokenTree::Ident(s.to_string())
}

fn punct(c: char) -> TokenTree {
    TokenTree::Punct(c)
}

fn lit(s: &str) -> TokenTree {
    TokenTree::Literal(format!("{s:?}"))
}

fn group(stream: Vec<TokenTree>) -> Group {
    Group { delimiter: Delimiter::Parenthesis, stream }
}

fn literal_of(ns: Option<&Namespace>) -> Option<&str> {
    match ns {
        Some(Namespace::Literal(l)) => Some(l.as_str()),
        _ => None,
    }
}

fn path_of(ns: Option<&Namespace>) -> Option<(bool, Vec<&str>)> {
    match ns {
        Some(Namespace::Path(p)) => {
            Some((p.leading_colon, p.segments.iter().map(|s| s.as_str()).collect()))
        }
        _ => None,
    }
}

#[test]
fn default_namespace_and_prefix_path() {
    // ns("http://example.com", xsi = XSI)
    let meta = NamespaceMeta::from_tokens(group(vec![
        lit("http://example.com"),
        punct(','),
        ident("xsi"),
        punct('='),
        ident("XSI"),
    ]))
    .unwrap();
    assert_eq!(literal_of(meta.uri.as_ref()), Some("\"http://example.com\""));
    assert_eq!(path_of(meta.prefix("xsi")), Some((false, vec!["XSI"])));
    assert!(meta.prefix("other").is_none());
}

#[test]
fn dashed_and_dotted_prefixes() {
    // ns(my-ns.v1 = "uri")
    let meta = NamespaceMeta::from_tokens(group(vec![
        ident("my"),
        punct('-'),
        ident("ns"),
        punct('.'),
        ident("v1"),
        punct('='),
        lit("uri"),
    ]))
    .unwrap();
    assert!(meta.uri.is_none());
    assert_eq!(literal_of(meta.prefix("my-ns.v1")), Some("\"uri\""));

    // ns("URI", da_sh.ed-ns = "dashed")
    let meta = NamespaceMeta::from_tokens(group(vec![
        lit("URI"),
        punct(','),
        ident("da_sh"),
        punct('.'),
        ident("ed"),
        punct('-'),
        ident("ns"),
        punct('='),
        lit("dashed"),
    ]))
    .unwrap();
    assert_eq!(literal_of(meta.uri.as_ref()), Some("\"URI\""));
    assert_eq!(literal_of(meta.prefix("da_sh.ed-ns")), Some("\"dashed\""));
}

#[test]
fn path_namespaces() {
    // ns(::crate_a::NS, x = a::B, y = "Y")
    let meta = NamespaceMeta::from_tokens(group(vec![
        punct(':'),
        punct(':'),
        ident("crate_a"),
        punct(':'),
        punct(':'),
        ident("NS"),
        punct(','),
        ident("x"),
        punct('='),
        ident("a"),
        punct(':'),
        punct(':'),
        ident("B"),
        punct(','),
        ident("y"),
        punct('='),
        lit("Y"),
    ]))
    .unwrap();
    assert_eq!(path_of(meta.uri.as_ref()), Some((true, vec!["crate_a", "NS"])));
    assert_eq!(path_of(meta.prefix("x")), Some((false, vec!["a", "B"])));
    assert_eq!(literal_of(meta.prefix("y")), Some("\"Y\""));

    // A later declaration of a prefix replaces an earlier one.
    let meta = NamespaceMeta::from_tokens(group(vec![
        ident("p"),
        punct('='),
        lit("one"),
        punct(','),
        ident("p"),
        punct('='),
        lit("two"),
    ]))
    .unwrap();
    assert_eq!(literal_of(meta.prefix("p")), Some("\"two\""));
}

#[test]
fn namespace_errors() {
    // ns(::a = "x")
    assert!(matches!(
        NamespaceMeta::from_tokens(group(vec![
            punct(':'),
            punct(':'),
            ident("a"),
            punct('='),
            lit("x")
        ])),
        Err(MetaError::PrefixOnPath)
    ));
    // ns(a::b = "x")
    assert!(matches!(
        NamespaceMeta::from_tokens(group(vec![
            ident("a"),
            punct(':'),
            punct(':'),
            ident("b"),
            punct('='),
            lit("x")
        ])),
        Err(MetaError::PrefixNotIdentifier)
    ));
    // ns("a" "b")
    assert!(matches!(
        NamespaceMeta::from_tokens(group(vec![lit("a"), lit("b")])),
        Err(MetaError::NsInvalidTransition { state: "Comma", tree: TokenTree::Literal(_) })
    ));
    // ns(a::)
    assert!(matches!(
        NamespaceMeta::from_tokens(group(vec![ident("a"), punct(':'), punct(':')])),
        Err(MetaError::NsInvalidEndState { state: "Path [111]" })
    ));
    // ns(p =)
    assert!(matches!(
        NamespaceMeta::from_tokens(group(vec![ident("p"), punct('=')])),
        Err(MetaError::NsInvalidEndState { state: "PrefixValue" })
    ));
}

#[test]
fn state_names() {
    assert_eq!(NsState::Start.name(), "Start");
    assert_eq!(NsState::Path { colon1: true, colon2: false, path: None }.name(), "Path [100]");
    assert_eq!(NsState::Eq { prefix: String::new() }.name(), "Eq");
    assert_eq!(MetaState::RenameAllValue.name(), "RenameAllValue");
    assert_eq!(MetaState::Comma.name(), "Comma");
}

fn xml(tokens: Vec<TokenTree>) -> OuterAttribute {
    OuterAttribute { ident: Some("xml".to_string()), list: Some(tokens) }
}

#[test]
fn items_of_the_xml_attribute() {
    let attrs = vec![
        OuterAttribute { ident: Some("doc".to_string()), list: None },
        xml(vec![
            ident("rename"),
            punct('='),
            lit("Foo"),
            punct(','),
            ident("attribute"),
            punct(','),
            ident("ns"),
            TokenTree::Group(Delimiter::Parenthesis, vec![lit("urn:x")]),
            punct(','),
            ident("scalar"),
            punct(','),
            ident("deserialize_with"),
            punct('='),
            lit("path::to::f"),
        ]),
        xml(vec![ident("borrow")]),
    ];
    let items = meta_items(&attrs).unwrap();
    assert_eq!(items.len(), 5);
    assert!(matches!(&items[0], MetaItem::Rename(l) if l == "\"Foo\""));
    assert!(matches!(&items[1], MetaItem::Attribute));
    assert!(matches!(&items[2], MetaItem::Ns(m) if literal_of(m.uri.as_ref()) == Some("\"urn:x\"")));
    assert!(matches!(&items[3], MetaItem::Mode(Mode::Scalar)));
    assert!(matches!(&items[4], MetaItem::DeserializeWith(l) if l == "\"path::to::f\""));
}

#[test]
fn no_xml_attribute_means_no_items() {
    let attrs = vec![OuterAttribute { ident: Some("derive".to_string()), list: Some(vec![]) }];
    assert!(meta_items(&attrs).unwrap().is_empty());
    assert!(meta_items(&[]).unwrap().is_empty());
}

#[test]
fn item_errors() {
    let attrs = vec![OuterAttribute { ident: Some("xml".to_string()), list: None }];
    assert!(matches!(meta_items(&attrs), Err(MetaError::ExpectedList)));

    let attrs = vec![xml(vec![ident("bogus")])];
    assert!(matches!(meta_items(&attrs), Err(MetaError::UnexpectedKey)));

    let attrs = vec![xml(vec![ident("rename"), lit("x")])];
    assert!(matches!(
        meta_items(&attrs),
        Err(MetaError::InvalidTransition { state: "Rename", tree: TokenTree::Literal(_) })
    ));

    let attrs = vec![xml(vec![
        ident("ns"),
        TokenTree::Group(Delimiter::Bracket, vec![lit("urn:x")]),
    ])];
    assert!(matches!(
        meta_items(&attrs),
        Err(MetaError::InvalidTransition { state: "Ns", tree: TokenTree::Group(Delimiter::Bracket, _) })
    ));

    let attrs = vec![xml(vec![
        ident("ns"),
        TokenTree::Group(Delimiter::Parenthesis, vec![lit("a"), lit("b")]),
    ])];
    assert!(matches!(meta_items(&attrs), Err(MetaError::NsInvalidTransition { state: "Comma", .. })));

    let attrs = vec![xml(vec![ident("transparent"), ident("forward")])];
    assert!(matches!(
        meta_items(&attrs),
        Err(MetaError::InvalidTransition { state: "Comma", .. })
    ));
}

#[test]
fn modes() {
    let attrs = vec![xml(vec![ident("forward"), punct(','), ident("transparent")])];
    let items = meta_items(&attrs).unwrap();
    assert!(matches!(&items[..], [MetaItem::Mode(Mode::Forward), MetaItem::Mode(Mode::Transparent)]));
}

#[test]
fn container_configuration() {
    let attrs = vec![xml(vec![
        ident("ns"),
        TokenTree::Group(Delimiter::Parenthesis, vec![lit("urn:c")]),
        punct(','),
        ident("rename"),
        punct('='),
        lit("custom-name"),
        punct(','),
        ident("rename_all"),
        punct('='),
        lit("camelCase"),
        punct(','),
        ident("scalar"),
    ])];
    let meta = ContainerMeta::from_derive(&attrs).unwrap();
    assert_eq!(literal_of(meta.ns.uri.as_ref()), Some("\"urn:c\""));
    assert_eq!(meta.rename.as_deref(), Some("\"custom-name\""));
    assert_eq!(meta.rename_all.as_deref(), Some("\"camelCase\""));
    assert_eq!(meta.mode, Some(Mode::Scalar));

    let meta = ContainerMeta::from_derive(&[]).unwrap();
    assert!(meta.ns.uri.is_none() && meta.rename.is_none() && meta.mode.is_none());

    let attrs = vec![xml(vec![ident("scalar"), punct(','), ident("forward")])];
    assert!(matches!(
        ContainerMeta::from_derive(&attrs),
        Err(MetaError::Invalid { message: "cannot have two modes" })
    ));
    let attrs = vec![xml(vec![ident("attribute")])];
    assert!(matches!(
        ContainerMeta::from_derive(&attrs),
        Err(MetaError::Invalid { message: "invalid field in container xml attribute" })
    ));
}

#[test]
fn field_configuration() {
    let meta = FieldMeta::from_field(&[], "\"field_one\"".to_string()).unwrap();
    assert_eq!(meta.tag, "\"field_one\"");
    assert!(!meta.attribute && !meta.borrow && !meta.direct);

    let attrs = vec![xml(vec![
        ident("attribute"),
        punct(','),
        ident("borrow"),
        punct(','),
        ident("rename"),
        punct('='),
        lit("other"),
        punct(','),
        ident("serialize_with"),
        punct('='),
        lit("f"),
    ])];
    let meta = FieldMeta::from_field(&attrs, "\"x\"".to_string()).unwrap();
    assert!(meta.attribute && meta.borrow && !meta.direct);
    assert_eq!(meta.tag, "\"other\"");
    assert_eq!(meta.serialize_with.as_deref(), Some("\"f\""));
    assert!(meta.deserialize_with.is_none());

    let attrs = vec![xml(vec![ident("rename_all"), punct('='), lit("snake_case")])];
    assert!(matches!(
        FieldMeta::from_field(&attrs, "\"x\"".to_string()),
        Err(MetaError::Invalid { message: "attribute 'rename_all' invalid in field xml attribute" })
    ));
    let attrs = vec![xml(vec![ident("transparent")])];
    assert!(matches!(
        FieldMeta::from_field(&attrs, "\"x\"".to_string()),
        Err(MetaError::Invalid { message: "invalid attribute for struct field" })
    ));
}

#[test]
fn variant_configuration() {
    let plain = Variant { has_fields: false, attrs: vec![], discriminant: None };
    let meta = VariantMeta::from_variant(&plain, "\"Foo\"".to_string()).unwrap();
    assert_eq!(meta.serialize_as, "\"Foo\"");

    let renamed = Variant {
        has_fields: false,
        attrs: vec![xml(vec![ident("rename"), punct('='), lit("bar")])],
        discriminant: None,
    };
    let meta = VariantMeta::from_variant(&renamed, "\"Foo\"".to_string()).unwrap();
    assert_eq!(meta.serialize_as, "\"bar\"");

    let numbered = Variant {
        has_fields: false,
        attrs: vec![],
        discriminant: Some(Discriminant::Int("42".to_string())),
    };
    let meta = VariantMeta::from_variant(&numbered, "\"Foo\"".to_string()).unwrap();
    assert_eq!(meta.serialize_as, "\"42\"");

    let named = Variant {
        has_fields: false,
        attrs: vec![],
        discriminant: Some(Discriminant::Str("\"baz\"".to_string())),
    };
    let meta = VariantMeta::from_variant(&named, "\"Foo\"".to_string()).unwrap();
    assert_eq!(meta.serialize_as, "\"baz\"");
}

#[test]
fn variant_errors() {
    let with_fields = Variant { has_fields: true, attrs: vec![], discriminant: None };
    assert!(matches!(
        VariantMeta::from_variant(&with_fields, "\"A\"".to_string()),
        Err(MetaError::Invalid { message: "only unit enum variants are permitted!" })
    ));
    let scalar = Variant {
        has_fields: false,
        attrs: vec![xml(vec![ident("scalar")])],
        discriminant: None,
    };
    assert!(matches!(
        VariantMeta::from_variant(&scalar, "\"A\"".to_string()),
        Err(MetaError::Invalid { message: "only 'rename' attribute is permitted on enum variants" })
    ));
    let computed = Variant {
        has_fields: false,
        attrs: vec![],
        discriminant: Some(Discriminant::Other),
    };
    assert!(matches!(
        VariantMeta::from_variant(&computed, "\"A\"".to_string()),
        Err(MetaError::Invalid { message: "invalid field discriminant value!" })
    ));
    let both = Variant {
        has_fields: false,
        attrs: vec![xml(vec![ident("rename"), punct('='), lit("b")])],
        discriminant: Some(Discriminant::Int("1".to_string())),
    };
    assert!(matches!(
        VariantMeta::from_variant(&both, "\"A\"".to_string()),
        Err(MetaError::Invalid { message: "conflicting `rename` attribute and variant discriminant!" })
    ));
}

fn unit(attrs: Vec<OuterAttribute>, discriminant: Option<Discriminant>) -> Variant {
    Variant { has_fields: false, attrs, discriminant }
}

#[test]
fn non_unit_enum_variant_unsupported() {
    // `Foo(String)` in a scalar enum
    let foo = Variant { has_fields: true, attrs: vec![], discriminant: None };
    assert!(matches!(
        VariantMeta::from_variant(&foo, "\"Foo\"".to_string()),
        Err(MetaError::Invalid { message: "only unit enum variants are permitted!" })
    ));
}

#[test]
fn scalar_variant_attribute_not_permitted() {
    // `#[xml(scalar)] Baz`
    let baz = unit(vec![xml(vec![ident("scalar")])], None);
    assert!(matches!(
        VariantMeta::from_variant(&baz, "\"Baz\"".to_string()),
        Err(MetaError::Invalid { message: "only 'rename' attribute is permitted on enum variants" })
    ));
}

#[test]
fn scalar_discrimintant_must_be_literal() {
    // `Foo = 1`
    let foo = unit(vec![], Some(Discriminant::Int("1".to_string())));
    assert!(VariantMeta::from_variant(&foo, "\"Foo\"".to_string()).is_ok());
    // `Foo = 1+1`
    let foo = unit(vec![], Some(Discriminant::Other));
    assert!(matches!(
        VariantMeta::from_variant(&foo, "\"Foo\"".to_string()),
        Err(MetaError::Invalid { message: "invalid field discriminant value!" })
    ));
}

#[test]
fn rename_all_attribute_not_permitted() {
    // `#[xml(rename_all = "UPPERCASE")] field_1: String`
    let attrs = vec![xml(vec![ident("rename_all"), punct('='), lit("UPPERCASE")])];
    assert!(matches!(
        FieldMeta::from_field(&attrs, "\"field_1\"".to_string()),
        Err(MetaError::Invalid { message: "attribute 'rename_all' invalid in field xml attribute" })
    ));
    // `#[xml(rename_all = "UPPERCASE")] Baz` in a scalar enum
    let baz = unit(vec![xml(vec![ident("rename_all"), punct('='), lit("UPPERCASE")])], None);
    assert!(matches!(
        VariantMeta::from_variant(&baz, "\"Baz\"".to_string()),
        Err(MetaError::Invalid { message: "only 'rename' attribute is permitted on enum variants" })
    ));
}

#[test]
fn bogus_rename_all_not_permitted() {
    let attrs = vec![xml(vec![ident("rename_all"), punct('='), lit("forgetaboutit")])];
    assert!(matches!(
        ContainerMeta::from_derive(&attrs),
        Err(MetaError::UnknownRenameRule { literal }) if literal == "\"forgetaboutit\""
    ));
    for rule in [
        "lowercase",
        "UPPERCASE",
        "PascalCase",
        "camelCase",
        "snake_case",
        "SCREAMING_SNAKE_CASE",
        "kebab-case",
        "SCREAMING-KEBAB-CASE",
    ] {
        let attrs = vec![xml(vec![ident("rename_all"), punct('='), lit(rule)])];
        assert!(ContainerMeta::from_derive(&attrs).is_ok(), "{rule}");
    }
}
