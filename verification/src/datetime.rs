//! `FromXml` and `ToXml` for chrono's naive date-times and dates.

use vstd::prelude::*;

use chrono::{NaiveDate, NaiveDateTime};

use crate::de::{take_str_spec, Context, ContextView, DeView, Deserializer};
use crate::impls::{
    display_to_xml, field_matches, field_matches_exec, lemma_scalar_written_grows, scalar_written,
};
use crate::ser::{unit_result_view, SerView, Serializer};
use crate::strings::cow_str;
use crate::{opt_id, Error, ErrorView, FromXml, Id, IdView, Kind, ToXml};

verus! {

/// `chrono::NaiveDateTime`, a date and time without a time zone.
#[verifier::external_type_specification]
#[verifier::external_body]
pub struct ExNaiveDateTime(chrono::NaiveDateTime);

/// `chrono::NaiveDate`, a date without a time zone.
#[verifier::external_type_specification]
#[verifier::external_body]
pub struct ExNaiveDate(chrono::NaiveDate);

/// What `NaiveDateTime::parse_from_str` gives for the text `s` in the format `fmt`: the date
/// and time it writes, or `None` where it writes none.
pub uninterp spec fn naive_datetime_parsed(s: Seq<char>, fmt: Seq<char>) -> Option<NaiveDateTime>;

/// What `NaiveDate::parse_from_str` gives for the text `s` in the format `fmt`.
pub uninterp spec fn naive_date_parsed(s: Seq<char>, fmt: Seq<char>) -> Option<NaiveDate>;

/// The text that `NaiveDateTime::format` writes for `dt` in the format `fmt`.
pub uninterp spec fn naive_datetime_formatted(dt: NaiveDateTime, fmt: Seq<char>) -> Seq<char>;

/// The text that `<NaiveDate as Display>::fmt` writes for `d`.
pub uninterp spec fn naive_date_displayed(d: NaiveDate) -> Seq<char>;

/// `NaiveDateTime::parse_from_str`, with its error dropped: the date and time that `s` writes
/// in the format `fmt`, if it writes one. What it gives is named, not stated.
#[verifier::external_body]
fn parse_naive_datetime(s: &str, fmt: &str) -> (r: Option<NaiveDateTime>)
    ensures
        r == naive_datetime_parsed(s@, fmt@),
{
    NaiveDateTime::parse_from_str(s, fmt).ok()
}

/// `NaiveDateTime::format`, written out: the text of a date and time in the format `fmt`,
/// which is the one format that this library writes (chrono panics on a format it cannot
/// read). The text is named, not stated.
#[verifier::external_body]
fn naive_datetime_text(dt: &NaiveDateTime, fmt: &str) -> (r: String)
    requires
        fmt@ == naive_datetime_format(),
    ensures
        r@ == naive_datetime_formatted(*dt, fmt@),
{
    dt.format(fmt).to_string()
}

/// `NaiveDate::parse_from_str`, with its error dropped: the date that `s` writes in the format
/// `fmt`, if it writes one. What it gives is named, not stated.
#[verifier::external_body]
fn parse_naive_date(s: &str, fmt: &str) -> (r: Option<NaiveDate>)
    ensures
        r == naive_date_parsed(s@, fmt@),
{
    NaiveDate::parse_from_str(s, fmt).ok()
}

/// `<NaiveDate as Display>::fmt`, written out: the `%Y-%m-%d` text of a date. The text is
/// named, not stated.
#[verifier::external_body]
fn naive_date_text(d: &NaiveDate) -> (r: String)
    ensures
        r@ == naive_date_displayed(*d),
{
    d.to_string()
}

/// The format of naive date-times, written and read.
pub open spec fn naive_datetime_format() -> Seq<char> {
    "%Y-%m-%dT%H:%M:%S%.f"@
}

/// The format of naive dates, read.
pub open spec fn naive_date_format() -> Seq<char> {
    "%Y-%m-%d"@
}

pub open spec fn invalid_datetime() -> ErrorView {
    ErrorView::Other("invalid date/time"@)
}

fn invalid_datetime_error() -> (e: Error)
    ensures
        e@ == invalid_datetime(),
{
    Error::Other(String::from_str("invalid date/time"))
}

impl<'xml> FromXml<'xml> for NaiveDateTime {
    open spec fn matches_spec(id: IdView, field: Option<IdView>) -> bool {
        field_matches(id, field)
    }

    fn matches(id: Id<'_>, field: Option<Id<'_>>) -> bool {
        field_matches_exec(id, field)
    }

    open spec fn deserialize_spec(
        before: Self::Accumulator,
        field: &'static str,
        c: ContextView,
        d: DeView,
        r: Result<(), ErrorView>,
        after: Self::Accumulator,
        c2: ContextView,
        d2: DeView,
    ) -> bool {
        &&& before is Some ==> (r matches Err(e) && e == ErrorView::DuplicateValue(field@)
            && after == before)
        &&& before is None ==> ({
                let (res, c1, d1) = take_str_spec(c, d);
                &&& c2 == c1
                &&& d2 == d1
                &&& match res {
                    Ok(None) => r is Ok && after is None,
                    Ok(Some(s)) => match naive_datetime_parsed(s, naive_datetime_format()) {
                        Some(v) => r is Ok && after == Some(v),
                        None => r matches Err(e) && e == invalid_datetime() && after is None,
                    },
                    Err(e) => r matches Err(err) && err == e && after == before,
                }
            })
    }

    /// Reads a date and time in the format `%Y-%m-%dT%H:%M:%S%.f`.
    fn deserialize(
        into: &mut Self::Accumulator,
        field: &'static str,
        deserializer: &mut Deserializer<'xml>,
        context: &mut Context<'xml>,
    ) -> (r: Result<(), Error>)
    {
        if into.is_some() {
            return Err(Error::DuplicateValue(field));
        }
        let value = match deserializer.take_str(context) {
            Ok(Some(value)) => value,
            Ok(None) => return Ok(()),
            Err(e) => return Err(e),
        };
        match parse_naive_datetime(cow_str(&value), "%Y-%m-%dT%H:%M:%S%.f") {
            Some(dt) => {
                *into = Some(dt);
                Ok(())
            },
            None => Err(invalid_datetime_error()),
        }
    }

    type Accumulator = Option<Self>;

    const KIND: Kind = Kind::Scalar;
}

impl ToXml for NaiveDateTime {
    /// Writes the date and time in the format `%Y-%m-%dT%H:%M:%S%.f`.
    open spec fn serialize_spec(
        &self,
        field: Option<IdView>,
        before: SerView,
        r: Result<(), ErrorView>,
        after: SerView,
    ) -> bool {
        (r, after) == scalar_written(
            before,
            naive_datetime_formatted(*self, naive_datetime_format()),
            field,
        )
    }

    fn serialize(&self, field: Option<Id<'_>>, serializer: &mut Serializer) -> (r: Result<(), Error>)
    {
        proof {
            reveal_strlit("%Y-%m-%dT%H:%M:%S%.f");
        }
        let text = naive_datetime_text(self, "%Y-%m-%dT%H:%M:%S%.f");
        proof {
            lemma_scalar_written_grows(serializer@, text@, opt_id(field));
        }
        display_to_xml(text.as_str(), field, serializer)
    }
}

impl<'xml> FromXml<'xml> for NaiveDate {
    open spec fn matches_spec(id: IdView, field: Option<IdView>) -> bool {
        field_matches(id, field)
    }

    fn matches(id: Id<'_>, field: Option<Id<'_>>) -> bool {
        field_matches_exec(id, field)
    }

    open spec fn deserialize_spec(
        before: Self::Accumulator,
        field: &'static str,
        c: ContextView,
        d: DeView,
        r: Result<(), ErrorView>,
        after: Self::Accumulator,
        c2: ContextView,
        d2: DeView,
    ) -> bool {
        &&& before is Some ==> (r matches Err(e) && e == ErrorView::DuplicateValue(field@)
            && after == before)
        &&& before is None ==> ({
                let (res, c1, d1) = take_str_spec(c, d);
                &&& c2 == c1
                &&& d2 == d1
                &&& match res {
                    Ok(None) => r is Ok && after is None,
                    Ok(Some(s)) => match naive_date_parsed(s, naive_date_format()) {
                        Some(v) => r is Ok && after == Some(v),
                        None => r matches Err(e) && e == invalid_datetime() && after is None,
                    },
                    Err(e) => r matches Err(err) && err == e && after == before,
                }
            })
    }

    /// Reads a date in the format `%Y-%m-%d`.
    fn deserialize(
        into: &mut Self::Accumulator,
        field: &'static str,
        deserializer: &mut Deserializer<'xml>,
        context: &mut Context<'xml>,
    ) -> (r: Result<(), Error>)
    {
        if into.is_some() {
            return Err(Error::DuplicateValue(field));
        }
        let value = match deserializer.take_str(context) {
            Ok(Some(value)) => value,
            Ok(None) => return Ok(()),
            Err(e) => return Err(e),
        };
        match parse_naive_date(cow_str(&value), "%Y-%m-%d") {
            Some(d) => {
                *into = Some(d);
                Ok(())
            },
            None => Err(invalid_datetime_error()),
        }
    }

    type Accumulator = Option<Self>;

    const KIND: Kind = Kind::Scalar;
}

impl ToXml for NaiveDate {
    /// Writes the date in the format `%Y-%m-%d`.
    open spec fn serialize_spec(
        &self,
        field: Option<IdView>,
        before: SerView,
        r: Result<(), ErrorView>,
        after: SerView,
    ) -> bool {
        (r, after) == scalar_written(before, naive_date_displayed(*self), field)
    }

    fn serialize(&self, field: Option<Id<'_>>, serializer: &mut Serializer) -> (r: Result<(), Error>)
    {
        let text = naive_date_text(self);
        proof {
            lemma_scalar_written_grows(serializer@, text@, opt_id(field));
        }
        display_to_xml(text.as_str(), field, serializer)
    }
}

} // verus!
