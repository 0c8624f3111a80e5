# instant_xml

A library for mapping XML documents, namespaces included, to and from Rust values, with its
behaviour stated in contracts and proved with Verus.

## Layout

- `src/escape.rs`: escaping and unescaping of XML text (entities and character references).
- `src/tokens.rs`: the tokens of a document, as the `xmlparser` tokenizer reads them.
- `src/prefix_map.rs`: a small map between namespace names, and the order of strings.
- `src/de.rs`: reading a document: nodes with namespaces resolved, one element at a time.
- `src/ser.rs`: writing a document, with the namespace prefixes in scope tracked.
- `src/impls.rs`: `FromXml` and `ToXml` for std's scalars and containers, with the laws that
  what is written reads back.
- `src/datetime.rs`: `FromXml` and `ToXml` for chrono's naive dates and date-times.
- `src/any_element.rs`: elements captured whole, whatever their namespace and name.
- `src/meta.rs`: the `#[xml(...)]` attribute that configures the derive macros.
- `src/derive.rs`: how the derive macros map a struct's fields and a wrapping enum's variants,
  and which configurations they refuse.
- `app/lib.rs`: what stays outside the verified library: the error type with `Display`,
  floating point, IP addresses and time-zoned date-times.
- `tests/`: tests of the library on concrete values.
