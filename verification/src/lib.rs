//! A library for mapping XML documents, namespaces included, to and from Rust values.

use vstd::prelude::*;

use crate::de::{de_new_spec, element_id_spec, start_spec, Context, ContextView, DeView, ElementView};
use crate::ser::{initial_ser, unit_result_view, SerView};
pub use crate::any_element::{AnyAttribute, AnyElement};
pub use crate::de::Deserializer;
pub use crate::impls::{display_to_xml, from_xml_str, OptionAccumulator};
pub use crate::ser::Serializer;
use crate::tokens::{token_views, tokenize, xml_tokens, TokenView, XmlToken};

pub mod any_element;
pub mod datetime;
pub mod de;
pub mod derive;
pub mod escape;
pub mod impls;
pub mod meta;
pub mod prefix_map;
pub mod ser;
pub mod strings;
pub mod tokens;

verus! {

/// `std::fmt::Error`, the error of formatting output.
#[verifier::external_type_specification]
#[verifier::external_body]
pub struct ExFmtError(std::fmt::Error);

/// `<std::fmt::Error as Clone>::clone`: `fmt::Error` is a unit struct, so its clone equals it.
pub assume_specification[ <std::fmt::Error as std::clone::Clone>::clone ](e: &std::fmt::Error) -> (r: std::fmt::Error)
    ensures
        r == *e,
;

/// Errors that can occur during XML serialization and deserialization.
#[derive(Clone, Debug, Eq, PartialEq)]
pub enum Error {
    /// Error formatting output
    Format(std::fmt::Error),
    /// Invalid XML entity encountered
    InvalidEntity(String),
    /// Error parsing XML, with the tokenizer's description of it
    Parse(String),
    /// Other error
    Other(String),
    /// Unexpected end of XML stream
    UnexpectedEndOfStream,
    /// Unexpected value encountered
    UnexpectedValue(String),
    /// Unexpected XML tag
    UnexpectedTag(String),
    /// Expected tag but none found
    MissingTag,
    /// Required field has no value
    MissingValue(&'static str),
    /// Unexpected XML token
    UnexpectedToken(String),
    /// Unknown namespace prefix
    UnknownPrefix(String),
    /// Unexpected XML node type
    UnexpectedNode(String),
    /// Internal state error
    UnexpectedState(&'static str),
    /// Expected a scalar value but found an element
    ExpectedScalar(String),
    /// Field value appears more than once
    DuplicateValue(&'static str),
}

/// Serialize a type to XML
pub trait ToXml {
    /// Whether serializing this value for the field `field`, from the serializer's state
    /// `before`, can end with the result `r` and the state `after`.
    spec fn serialize_spec(
        &self,
        field: Option<IdView>,
        before: SerView,
        r: Result<(), ErrorView>,
        after: SerView,
    ) -> bool;

    /// Serialize this value to XML using the provided serializer
    ///
    /// Serialization only ever appends to the serializer's output.
    fn serialize(&self, field: Option<Id<'_>>, serializer: &mut ser::Serializer) -> (r: Result<(), Error>)
        ensures
            old(serializer)@.output.is_prefix_of(final(serializer)@.output),
            self.serialize_spec(
                opt_id(field),
                old(serializer)@,
                unit_result_view(r),
                final(serializer)@,
            ),
    ;

    /// Check if this value should be serialized
    ///
    /// Returns `false` for absent optional values, `true` otherwise.
    fn present(&self) -> (r: bool)
        default_ensures
            r == true,
    {
        true
    }
}

impl<'a, T: ToXml + ?Sized> ToXml for &'a T {
    open spec fn serialize_spec(
        &self,
        field: Option<IdView>,
        before: SerView,
        r: Result<(), ErrorView>,
        after: SerView,
    ) -> bool {
        (**self).serialize_spec(field, before, r, after)
    }

    fn serialize(&self, field: Option<Id<'_>>, serializer: &mut ser::Serializer) -> (r: Result<(), Error>) {
        (**self).serialize(field, serializer)
    }
}

/// Deserialize a type from XML
pub trait FromXml<'xml>: Sized {
    /// Whether an element or attribute named `id` matches this type, for the field `field`
    /// if any.
    spec fn matches_spec(id: IdView, field: Option<IdView>) -> bool;

    /// Check if an element or attribute matches this type
    fn matches(id: Id<'_>, field: Option<Id<'_>>) -> (r: bool)
        ensures
            r == Self::matches_spec(id@, opt_id(field)),
    ;

    /// Whether deserializing into the accumulator `into`, for the field `field`, with the
    /// reading states `c` and `d`, can end with the result `r`, the accumulator `into_after` and
    /// the reading states `c_after` and `d_after`.
    spec fn deserialize_spec(
        into: Self::Accumulator,
        field: &'static str,
        c: ContextView,
        d: DeView,
        r: Result<(), ErrorView>,
        into_after: Self::Accumulator,
        c_after: ContextView,
        d_after: DeView,
    ) -> bool;

    /// Deserialize from XML into an accumulator
    fn deserialize(
        into: &mut Self::Accumulator,
        field: &'static str,
        deserializer: &mut Deserializer<'xml>,
        context: &mut Context<'xml>,
    ) -> (r: Result<(), Error>)
        ensures
            Self::deserialize_spec(
                *old(into),
                field,
                old(context)@,
                old(deserializer)@,
                unit_result_view(r),
                *final(into),
                final(context)@,
                final(deserializer)@,
            ),
    ;

    /// The accumulator type used during deserialization
    type Accumulator: Accumulate<Self>;

    /// The kind of XML node this type represents
    const KIND: Kind;
}

/// Accumulate values during deserialization
///
/// A type implementing `Accumulate<T>` is used to accumulate a value of type `T`.
pub trait Accumulate<T>: Default {
    /// Whether converting this accumulator, for the field `field`, can give `r`.
    spec fn try_done_spec(self, field: &'static str, r: Result<T, ErrorView>) -> bool;

    /// Convert the accumulator into the final value, or return an error
    fn try_done(self, field: &'static str) -> (r: Result<T, Error>)
        ensures
            self.try_done_spec(field, value_result_view(r)),
    ;
}

/// A result with its error taken by its value.
pub open spec fn value_result_view<T>(r: Result<T, Error>) -> Result<T, ErrorView> {
    match r {
        Ok(v) => Ok(v),
        Err(e) => Err(e@),
    }
}

impl<T> Accumulate<T> for Option<T> {
    /// The value, or a missing value.
    open spec fn try_done_spec(self, field: &'static str, r: Result<T, ErrorView>) -> bool {
        r == match self {
            Some(v) => Ok(v),
            None => Err(ErrorView::MissingValue(field@)),
        }
    }

    fn try_done(self, field: &'static str) -> (r: Result<T, Error>) {
        match self {
            Some(v) => Ok(v),
            None => Err(Error::MissingValue(field)),
        }
    }
}

impl<T> Accumulate<Vec<T>> for Vec<T> {
    /// The items accumulated.
    open spec fn try_done_spec(self, field: &'static str, r: Result<Vec<T>, ErrorView>) -> bool {
        r == Ok::<Vec<T>, ErrorView>(self)
    }

    fn try_done(self, field: &'static str) -> (r: Result<Vec<T>, Error>) {
        Ok(self)
    }
}

impl<T> Accumulate<Option<T>> for Option<T> {
    /// The optional value, as accumulated.
    open spec fn try_done_spec(self, field: &'static str, r: Result<Option<T>, ErrorView>) -> bool {
        r == Ok::<Option<T>, ErrorView>(self)
    }

    fn try_done(self, field: &'static str) -> (r: Result<Option<T>, Error>) {
        Ok(self)
    }
}

/// Marker trait for types that can be deserialized with any lifetime
pub trait FromXmlOwned: for<'xml> FromXml<'xml> {

}

impl<T> FromXmlOwned for T where T: for<'xml> FromXml<'xml> {

}

pub open spec fn opt_id(field: Option<Id<'_>>) -> Option<IdView> {
    match field {
        Some(id) => Some(id@),
        None => None,
    }
}

/// `<str as Debug>::fmt`: the quoted, escaped rendering of a string.
pub uninterp spec fn str_debug(s: Seq<char>) -> Seq<char>;

/// Renders `s` as `format!("{s:?}")` does.
#[verifier::external_body]
pub(crate) fn debug_str(s: &str) -> (r: String)
    ensures
        r@ == str_debug(s@),
{
    format!("{s:?}")
}

/// The message for a root element that the target type does not match.
pub open spec fn root_mismatch_message(id: IdView) -> Seq<char> {
    if id.ns.len() == 0 {
        "unexpected root element "@ + str_debug(id.name)
    } else {
        "unexpected root element "@ + str_debug(id.name) + " in namespace "@ + str_debug(id.ns)
    }
}

/// What deserializing a value of `T` from a document made of `tokens` gives, as far as it does
/// not depend on how `T` deserializes its content.
pub open spec fn document_outcome<'xml, T: FromXml<'xml>>(
    tokens: Seq<TokenView>,
    r: Result<T, Error>,
) -> bool {
    match start_spec(tokens) {
        Err(e) => r matches Err(err) && err@ == e,
        Ok((c, root)) => match element_id_spec(c.stack, root) {
            Err(e) => r matches Err(err) && err@ == e,
            Ok(id) => if !T::matches_spec(id, None) {
                r matches Err(Error::UnexpectedValue(m)) && m@ == root_mismatch_message(id)
            } else {
                root_read::<T>(c, root, r)
            },
        },
    }
}

/// What reading the root element `root`, with the reading state `c` after its start tag, can
/// give: `T` deserializes the element's content into a fresh accumulator for the field
/// `"<root element>"`; its error is the result, else the accumulator's `try_done` is.
pub open spec fn root_read<'xml, T: FromXml<'xml>>(
    c: ContextView,
    root: ElementView,
    r: Result<T, Error>,
) -> bool {
    let (c0, d0) = de_new_spec(root, c);
    exists|
        acc0: T::Accumulator,
        acc1: T::Accumulator,
        c1: ContextView,
        d1: DeView,
        r1: Result<(), ErrorView>,
    |
        #[trigger] T::deserialize_spec(acc0, "<root element>", c0, d0, r1, acc1, c1, d1)
            && match r1 {
            Err(e) => r matches Err(err) && err@ == e,
            Ok(()) => acc1.try_done_spec("<root element>", value_result_view(r)),
        }
}

/// Deserialize a type from the tokens of an XML document
pub fn from_tokens<'xml, T: FromXml<'xml>>(tokens: Vec<XmlToken<'xml>>) -> (r: Result<T, Error>)
    ensures
        document_outcome::<T>(token_views(tokens@), r),
{
    let (mut context, root) = match Context::start(tokens) {
        Ok(started) => started,
        Err(e) => return Err(e),
    };
    let id = match context.element_id(&root) {
        Ok(id) => id,
        Err(e) => return Err(e),
    };
    if !T::matches(id, None) {
        proof {
            reveal_strlit("unexpected root element ");
            reveal_strlit(" in namespace ");
        }
        let mut message = String::from_str("unexpected root element ");
        message.append(debug_str(id.name).as_str());
        if !id.ns.is_empty() {
            message.append(" in namespace ");
            message.append(debug_str(id.ns).as_str());
        }
        return Err(Error::UnexpectedValue(message));
    }
    let ghost c_root = context@;
    let ghost root_view = root@;
    let mut value = T::Accumulator::default();
    let ghost acc0 = value;
    let mut deserializer = Deserializer::new(root, &mut context);
    let ghost c0 = context@;
    let ghost d0 = deserializer@;
    match T::deserialize(&mut value, "<root element>", &mut deserializer, &mut context) {
        Ok(()) => {
            assert((c0, d0) == de_new_spec(root_view, c_root));
            assert(T::deserialize_spec(
                acc0,
                "<root element>",
                de_new_spec(root_view, c_root).0,
                de_new_spec(root_view, c_root).1,
                Ok(()),
                value,
                context@,
                deserializer@,
            ));
        },
        Err(e) => {
            assert((c0, d0) == de_new_spec(root_view, c_root));
            assert(T::deserialize_spec(
                acc0,
                "<root element>",
                de_new_spec(root_view, c_root).0,
                de_new_spec(root_view, c_root).1,
                Err(e@),
                value,
                context@,
                deserializer@,
            ));
            return Err(e);
        },
    }
    value.try_done("<root element>")
}

/// Deserialize a type from an XML string
pub fn from_str<'xml, T: FromXml<'xml>>(input: &'xml str) -> (r: Result<T, Error>)
    ensures
        document_outcome::<T>(xml_tokens(input@), r),
{
    from_tokens(tokenize(input))
}

/// Whether a text result is `Ok` or the error.
pub open spec fn text_result_view(r: Result<String, Error>) -> Result<(), ErrorView> {
    match r {
        Ok(_) => Ok(()),
        Err(e) => Err(e@),
    }
}

/// Serialize a value to an XML string
pub fn to_string<T: ToXml + ?Sized>(value: &T) -> (r: Result<String, Error>)
    ensures
        exists|after: SerView|
            #[trigger] value.serialize_spec(None, initial_ser(), text_result_view(r), after) && (
            r matches Ok(text) ==> text@ == after.output),
{
    let mut serializer = Serializer::new();
    match value.serialize(None, &mut serializer) {
        Ok(()) => {
            let ghost after = serializer@;
            let text = serializer.into_string();
            assert(value.serialize_spec(None, initial_ser(), Ok(()), after));
            Ok(text)
        },
        Err(e) => {
            assert(value.serialize_spec(None, initial_ser(), Err(e@), serializer@));
            Err(e)
        },
    }
}

/// Serialize a value to the end of an XML string
pub fn to_writer<T: ToXml + ?Sized>(value: &T, output: &mut String) -> (r: Result<(), Error>)
    ensures
        old(output)@.is_prefix_of(final(output)@),
        exists|after: SerView|
            #[trigger] value.serialize_spec(None, initial_ser(), unit_result_view(r), after)
                && final(output)@ == old(output)@ + after.output,
{
    let mut serializer = Serializer::new();
    let r = value.serialize(None, &mut serializer);
    let ghost after = serializer@;
    let text = serializer.into_string();
    output.append(text.as_str());
    proof {
        assert forall|k: int| 0 <= k < old(output)@.len() implies old(output)@[k] == output@[k] by {}
        assert(value.serialize_spec(None, initial_ser(), unit_result_view(r), after));
    }
    r
}

/// The value of an [`Error`], with its texts as character sequences.
pub enum ErrorView {
    Format,
    InvalidEntity(Seq<char>),
    Parse(Seq<char>),
    Other(Seq<char>),
    UnexpectedEndOfStream,
    UnexpectedValue(Seq<char>),
    UnexpectedTag(Seq<char>),
    MissingTag,
    MissingValue(Seq<char>),
    UnexpectedToken(Seq<char>),
    UnknownPrefix(Seq<char>),
    UnexpectedNode(Seq<char>),
    UnexpectedState(Seq<char>),
    ExpectedScalar(Seq<char>),
    DuplicateValue(Seq<char>),
}

impl View for Error {
    type V = ErrorView;

    open spec fn view(&self) -> ErrorView {
        match self {
            Error::Format(_) => ErrorView::Format,
            Error::InvalidEntity(s) => ErrorView::InvalidEntity(s@),
            Error::Parse(s) => ErrorView::Parse(s@),
            Error::Other(s) => ErrorView::Other(s@),
            Error::UnexpectedEndOfStream => ErrorView::UnexpectedEndOfStream,
            Error::UnexpectedValue(s) => ErrorView::UnexpectedValue(s@),
            Error::UnexpectedTag(s) => ErrorView::UnexpectedTag(s@),
            Error::MissingTag => ErrorView::MissingTag,
            Error::MissingValue(s) => ErrorView::MissingValue(s@),
            Error::UnexpectedToken(s) => ErrorView::UnexpectedToken(s@),
            Error::UnknownPrefix(s) => ErrorView::UnknownPrefix(s@),
            Error::UnexpectedNode(s) => ErrorView::UnexpectedNode(s@),
            Error::UnexpectedState(s) => ErrorView::UnexpectedState(s@),
            Error::ExpectedScalar(s) => ErrorView::ExpectedScalar(s@),
            Error::DuplicateValue(s) => ErrorView::DuplicateValue(s@),
        }
    }
}

/// The kind of XML node a type represents
#[derive(Copy, Clone, Debug, Eq, PartialEq, Structural)]
pub enum Kind {
    /// A scalar value (text content or attribute)
    Scalar,
    /// An XML element
    Element,
}

/// Identifier for an XML element or attribute with namespace
#[derive(Clone, Copy, Debug, Eq, Hash, PartialEq)]
pub struct Id<'a> {
    /// The namespace URI
    pub ns: &'a str,
    /// The local name
    pub name: &'a str,
}

/// The value of an [`Id`].
pub struct IdView {
    pub ns: Seq<char>,
    pub name: Seq<char>,
}

impl<'a> View for Id<'a> {
    type V = IdView;

    open spec fn view(&self) -> IdView {
        IdView { ns: self.ns@, name: self.name@ }
    }
}

impl<'a> Id<'a> {
    /// Whether both identifiers name the same namespace and local name.
    pub fn same(&self, other: &Id<'_>) -> (r: bool)
        ensures
            r == (self@ == other@),
    {
        strings::str_eq(self.ns, other.ns) && strings::str_eq(self.name, other.name)
    }
}

} // verus!
