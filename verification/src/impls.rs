//! `FromXml` and `ToXml` for std's scalar and container types.

use std::borrow::Cow;
use std::marker::PhantomData;
use vstd::prelude::*;
use vstd::std_specs::iter::IteratorSpec;

use crate::de::{
    advance, context_next, cow_borrowed, de_new_spec, initial_context, prefix_of, scan, start_spec,
    take_str_borrows, take_str_spec, Context, ContextView, DeView, Deserializer, LevelView, NodeView,
};
use crate::tokens::TokenView;
use crate::escape::{
    all_digits, digit_val, digits_num, encode, encode_spec, entity_value, has_escapable, is_digit,
    is_xml_code,
    lemma_decode_encode_roundtrip, lemma_encode_plain, needs_escape, radix,
};
use crate::ser::{end_tag, start_tag, state_error, unit_result_view, SerView, Serializer, State};
use crate::strings::{cow_str, push_char, str_eq};
use crate::{opt_id, Accumulate, Error, ErrorView, FromXml, Id, IdView, Kind, ToXml};

verus! {

// Deserializer

/// `<T as FromStr>::from_str`: what `T` parses `s` into, if anything.
#[verifier::external_body]
fn parse_from_str<T: std::str::FromStr>(s: &str) -> Option<T> {
    s.parse().ok()
}

/// The message for a text `s` that the type cannot parse.
pub open spec fn str_parse_failure(s: Seq<char>) -> Seq<char> {
    "unable to parse value from `"@ + s + "`"@
}

/// Deserializes a value of `T` from the text of the element or attribute that `deserializer`
/// reads, through `T`'s `FromStr`.
pub fn from_xml_str<'xml, T: std::str::FromStr>(
    into: &mut Option<T>,
    field: &'static str,
    deserializer: &mut Deserializer<'xml>,
    context: &mut Context<'xml>,
) -> (r: Result<(), Error>)
    ensures
        *old(into) is Some ==> (r matches Err(e) && e@ == ErrorView::DuplicateValue(field@)
            && *final(into) == *old(into)),
        *old(into) is None ==> ({
            let (res, c, d) = take_str_spec(old(context)@, old(deserializer)@);
            &&& final(context)@ == c
            &&& final(deserializer)@ == d
            &&& match res {
                Ok(None) => r is Ok && *final(into) is None,
                Ok(Some(s)) => (r is Ok <==> *final(into) is Some) && (r is Err ==> (r matches Err(
                    Error::UnexpectedValue(m),
                ) && m@ == str_parse_failure(s))),
                Err(e) => r matches Err(err) && err@ == e && *final(into) is None,
            }
        }),
{
    if into.is_some() {
        return Err(Error::DuplicateValue(field));
    }
    let value = match deserializer.take_str(context) {
        Ok(Some(value)) => value,
        Ok(None) => return Ok(()),
        Err(e) => return Err(e),
    };
    match parse_from_str::<T>(cow_str(&value)) {
        Some(v) => {
            *into = Some(v);
            Ok(())
        },
        None => {
            let mut message = String::from_str("unable to parse value from `");
            message.append(cow_str(&value));
            message.append("`");
            assert(message@ =~= str_parse_failure(value@));
            Err(Error::UnexpectedValue(message))
        },
    }
}

/// Characters that `str::trim` removes.
pub open spec fn is_whitespace(c: char) -> bool {
    let v = c as u32;
    (0x9 <= v <= 0xD) || v == 0x20 || v == 0x85 || v == 0xA0 || v == 0x1680 || (0x2000 <= v
        <= 0x200A) || v == 0x2028 || v == 0x2029 || v == 0x202F || v == 0x205F || v == 0x3000
}

/// `s` without its leading and trailing whitespace.
pub open spec fn trim_spec(s: Seq<char>) -> Seq<char>
    decreases s.len(),
{
    if s.len() == 0 {
        s
    } else if is_whitespace(s[0]) {
        trim_spec(s.drop_first())
    } else if is_whitespace(s.last()) {
        trim_spec(s.drop_last())
    } else {
        s
    }
}

/// An integer as std's `FromStr` reads it: an optional sign (`-` only for signed types), then
/// at least one decimal digit.
pub open spec fn parse_int(s: Seq<char>, signed: bool) -> Option<int> {
    let neg = s.len() > 0 && s[0] == '-';
    let d = if s.len() > 0 && (s[0] == '+' || (signed && s[0] == '-')) {
        s.drop_first()
    } else {
        s
    };
    if d.len() > 0 && all_digits(d, false) {
        Some(
            if neg {
                -digits_num(d, false)
            } else {
                digits_num(d, false) as int
            },
        )
    } else {
        None
    }
}

/// The integer that the text `s` holds, surrounding whitespace aside, if it lies in
/// `min..=max`.
pub open spec fn parse_int_in(s: Seq<char>, signed: bool, min: int, max: int) -> Option<int> {
    match parse_int(trim_spec(s), signed) {
        Some(v) => if min <= v <= max {
            Some(v)
        } else {
            None
        },
        None => None,
    }
}

pub(crate) fn str_chars(s: &str) -> (r: Vec<char>)
    ensures
        r@ == s@,
{
    let mut out: Vec<char> = Vec::new();
    let ghost all = s@;
    let ghost mut i: int = 0;
    let mut it = s.chars();
    proof {
        broadcast use vstd::string::group_string_axioms;

        assert(all.skip(0) == all);
        assert(all.take(0) =~= Seq::<char>::empty());
    }
    loop
        invariant
            all == s@,
            0 <= i <= all.len(),
            it.remaining() == all.skip(i),
            out@ == all.take(i),
        ensures
            out@ == all,
        decreases all.len() - i,
    {
        let next = it.next();
        proof {
            broadcast use vstd::string::group_string_axioms;

        }
        match next {
            None => {
                assert(all.take(i) == all);
                break ;
            },
            Some(c) => {
                assert(all.skip(i)[0] == c);
                out.push(c);
                proof {
                    i = i + 1;
                }
                assert(all.take(i) =~= all.take(i - 1).push(c));
            },
        }
    }
    out
}

fn is_whitespace_exec(c: char) -> (r: bool)
    ensures
        r == is_whitespace(c),
{
    let v = c as u32;
    (0x9 <= v && v <= 0xD) || v == 0x20 || v == 0x85 || v == 0xA0 || v == 0x1680 || (0x2000 <= v
        && v <= 0x200A) || v == 0x2028 || v == 0x2029 || v == 0x202F || v == 0x205F || v == 0x3000
}

/// The bounds of the text of `s` without surrounding whitespace.
fn trim_bounds(s: &Vec<char>) -> (r: (usize, usize))
    ensures
        r.0 <= r.1 <= s.len(),
        s@.subrange(r.0 as int, r.1 as int) == trim_spec(s@),
{
    let mut lo: usize = 0;
    let mut hi: usize = s.len();
    assert(s@.subrange(0, s.len() as int) =~= s@);
    while lo < hi && is_whitespace_exec(s[lo])
        invariant
            lo <= hi <= s.len(),
            hi == s.len(),
            trim_spec(s@) == trim_spec(s@.subrange(lo as int, hi as int)),
        decreases hi - lo,
    {
        let ghost t = s@.subrange(lo as int, hi as int);
        assert(t.drop_first() =~= s@.subrange(lo + 1, hi as int));
        lo += 1;
    }
    while lo < hi && is_whitespace_exec(s[hi - 1])
        invariant
            lo <= hi <= s.len(),
            trim_spec(s@) == trim_spec(s@.subrange(lo as int, hi as int)),
            lo < hi ==> !is_whitespace(s@[lo as int]),
        decreases hi - lo,
    {
        let ghost t = s@.subrange(lo as int, hi as int);
        assert(t.drop_last() =~= s@.subrange(lo as int, hi - 1));
        assert(t[0] == s@[lo as int]);
        hi -= 1;
    }
    let ghost t = s@.subrange(lo as int, hi as int);
    if lo < hi {
        assert(t[0] == s@[lo as int]);
        assert(t.last() == s@[hi - 1]);
    }
    (lo, hi)
}

proof fn lemma_digits_num_grows(s: Seq<char>, i: int)
    requires
        0 <= i < s.len(),
    ensures
        digits_num(s.take(i + 1), false) >= digits_num(s.take(i), false),
{
    let a = digits_num(s.take(i), false);
    assert(s.take(i + 1).drop_last() =~= s.take(i));
    assert(digits_num(s.take(i + 1), false) == a * radix(false) + digit_val(s.take(i + 1).last()));
    assert(a * 10 >= a) by (nonlinear_arith)
        requires
            a >= 0,
    ;
}

proof fn lemma_digits_num_mono(s: Seq<char>, i: int, j: int)
    requires
        0 <= i <= j <= s.len(),
    ensures
        digits_num(s.take(j), false) >= digits_num(s.take(i), false),
    decreases j - i,
{
    if i < j {
        lemma_digits_num_mono(s, i, j - 1);
        lemma_digits_num_grows(s, j - 1);
    }
}

/// Reads an integer from `text`, surrounding whitespace aside, if it lies in `min..=max`.
fn parse_integer(text: &str, signed: bool, min: i128, max: i128) -> (r: Option<i128>)
    requires
        -0xFFFF_FFFF_FFFF_FFFF <= min <= max <= 0xFFFF_FFFF_FFFF_FFFF,
    ensures
        r matches Some(v) ==> parse_int_in(text@, signed, min as int, max as int) == Some(v as int),
        r is None ==> parse_int_in(text@, signed, min as int, max as int) is None,
{
    let chars = str_chars(text);
    let (lo, hi) = trim_bounds(&chars);
    let ghost s = chars@.subrange(lo as int, hi as int);
    if lo == hi {
        return None;
    }
    let mut i = lo;
    let neg = chars[i] == '-';
    if chars[i] == '+' || (signed && chars[i] == '-') {
        i += 1;
    }
    let ghost d = chars@.subrange(i as int, hi as int);
    assert(d == (if s.len() > 0 && (s[0] == '+' || (signed && s[0] == '-')) {
        s.drop_first()
    } else {
        s
    }));
    if i == hi {
        return None;
    }
    let first = i;
    let mut val: u128 = 0;
    while i < hi
        invariant
            first <= i <= hi <= chars.len(),
            chars@ == text@,
            lo < hi,
            s == chars@.subrange(lo as int, hi as int),
            s == trim_spec(text@),
            neg == (s.len() > 0 && s[0] == '-'),
            d == (if s.len() > 0 && (s[0] == '+' || (signed && s[0] == '-')) {
                s.drop_first()
            } else {
                s
            }),
            -0xFFFF_FFFF_FFFF_FFFF <= min <= max <= 0xFFFF_FFFF_FFFF_FFFF,
            d == chars@.subrange(first as int, hi as int),
            d.len() > 0,
            all_digits(d.take(i - first), false),
            val == digits_num(d.take(i - first), false),
            val <= 0xFFFF_FFFF_FFFF_FFFF,
        decreases hi - i,
    {
        let c = chars[i];
        let k = i - first;
        assert(d[k as int] == c);
        if !('0' <= c && c <= '9') {
            assert(!all_digits(d, false));
            return None;
        }
        let dv = (c as u32 - '0' as u32) as u128;
        assert(d.take(k + 1).drop_last() =~= d.take(k as int));
        assert(d.take(k + 1).last() == c);
        val = val * 10 + dv;
        i += 1;
        assert(all_digits(d.take(i - first), false)) by {
            assert forall|j: int| 0 <= j < d.take(i - first).len() implies crate::escape::is_digit(
                #[trigger] d.take(i - first)[j],
                false,
            ) by {
                if j < k {
                    assert(d.take(i - first)[j] == d.take(k as int)[j]);
                }
            }
        }
        if val > 0xFFFF_FFFF_FFFF_FFFF {
            proof {
                lemma_digits_num_mono(d, i - first, d.len() as int);
                assert(d.take(d.len() as int) =~= d);
            }
            return None;
        }
    }
    assert(d.take(i - first) =~= d);
    let v: i128 = if neg {
        -(val as i128)
    } else {
        val as i128
    };
    if v < min || v > max {
        return None;
    }
    Some(v)
}

/// The message of a value that does not parse as `type_label`.
pub open spec fn parse_failure(type_label: Seq<char>, value: Seq<char>, field: Seq<char>) -> Seq<
    char,
> {
    "unable to parse "@ + type_label + " from `"@ + value + "` for "@ + field
}

fn parse_failure_message(type_label: &str, value: &str, field: &str) -> (r: String)
    ensures
        r@ == parse_failure(type_label@, value@, field@),
{
    let mut message = String::from_str("unable to parse ");
    message.append(type_label);
    message.append(" from `");
    message.append(value);
    message.append("` for ");
    message.append(field);
    message
}

/// What reading an integer of the type named `type_label` in `min..=max` from the element or
/// attribute that `d` reads gives.
pub open spec fn integer_outcome(
    c: ContextView,
    d: DeView,
    field: Seq<char>,
    type_label: Seq<char>,
    signed: bool,
    min: int,
    max: int,
) -> (Result<Option<int>, ErrorView>, ContextView, DeView) {
    let (res, c1, d1) = take_str_spec(c, d);
    match res {
        Ok(None) => (Ok(None), c1, d1),
        Ok(Some(s)) => match parse_int_in(s, signed, min, max) {
            Some(v) => (Ok(Some(v)), c1, d1),
            None => (Err(ErrorView::UnexpectedValue(parse_failure(type_label, s, field))), c1, d1),
        },
        Err(e) => (Err(e), c1, d1),
    }
}

pub open spec fn int_result_view(r: Result<Option<i128>, Error>) -> Result<Option<int>, ErrorView> {
    match r {
        Ok(Some(v)) => Ok(Some(v as int)),
        Ok(None) => Ok(None),
        Err(e) => Err(e@),
    }
}

/// Reads an integer of the type named `type_label` in `min..=max`.
fn deserialize_integer<'xml>(
    field: &'static str,
    deserializer: &mut Deserializer<'xml>,
    context: &mut Context<'xml>,
    type_label: &'static str,
    signed: bool,
    min: i128,
    max: i128,
) -> (r: Result<Option<i128>, Error>)
    requires
        -0xFFFF_FFFF_FFFF_FFFF <= min <= max <= 0xFFFF_FFFF_FFFF_FFFF,
    ensures
        ({
            let (res, c, d) = integer_outcome(
                old(context)@,
                old(deserializer)@,
                field@,
                type_label@,
                signed,
                min as int,
                max as int,
            );
            &&& final(context)@ == c
            &&& final(deserializer)@ == d
            &&& int_result_view(r) == res
            &&& r matches Ok(Some(v)) ==> min <= v <= max
        }),
{
    let value = match deserializer.take_str(context) {
        Ok(Some(value)) => value,
        Ok(None) => return Ok(None),
        Err(e) => return Err(e),
    };
    match parse_integer(cow_str(&value), signed, min, max) {
        Some(v) => Ok(Some(v)),
        None => Err(Error::UnexpectedValue(parse_failure_message(type_label, cow_str(&value), field))),
    }
}

pub open spec fn field_matches(id: IdView, field: Option<IdView>) -> bool {
    match field {
        Some(f) => id == f,
        None => false,
    }
}

pub(crate) fn field_matches_exec(id: Id<'_>, field: Option<Id<'_>>) -> (r: bool)
    ensures
        r == field_matches(id@, opt_id(field)),
{
    match field {
        Some(f) => id.same(&f),
        None => false,
    }
}

impl<'xml> FromXml<'xml> for i8 {
    open spec fn matches_spec(id: IdView, field: Option<IdView>) -> bool {
        field_matches(id, field)
    }

    fn matches(id: Id<'_>, field: Option<Id<'_>>) -> bool {
        field_matches_exec(id, field)
    }

    open spec fn deserialize_spec(
        before: Self::Accumulator,
        field: &'static str,
        c: ContextView,
        d: DeView,
        r: Result<(), ErrorView>,
        after: Self::Accumulator,
        c2: ContextView,
        d2: DeView,
    ) -> bool {
        match before {
            Some(_) => r matches Err(e) && e == ErrorView::DuplicateValue(field@)
            && after == before,
            None => {
                let (res, c1, d1) = integer_outcome(
                    c,
                    d,
                    field@,
                    "i8"@,
                    true,
                    -128,
                    127,
                );
                &&& c2 == c1
                &&& d2 == d1
                &&& match res {
                    Ok(Some(v)) => r is Ok && after == Some(v as i8),
                    Ok(None) => r is Ok && after is None,
                    Err(e) => r matches Err(x) && x == e && after == before,
                }
            },
        }
    }

    fn deserialize(
        into: &mut Self::Accumulator,
        field: &'static str,
        deserializer: &mut Deserializer<'xml>,
        context: &mut Context<'xml>,
    ) -> (r: Result<(), Error>)
    {
        if into.is_some() {
            return Err(Error::DuplicateValue(field));
        }
        match deserialize_integer(field, deserializer, context, "i8", true, -128, 127) {
            Ok(Some(v)) => {
                *into = Some(v as i8);
                Ok(())
            },
            Ok(None) => Ok(()),
            Err(e) => Err(e),
        }
    }

    type Accumulator = Option<Self>;

    const KIND: Kind = Kind::Scalar;
}

impl<'xml> FromXml<'xml> for i16 {
    open spec fn matches_spec(id: IdView, field: Option<IdView>) -> bool {
        field_matches(id, field)
    }

    fn matches(id: Id<'_>, field: Option<Id<'_>>) -> bool {
        field_matches_exec(id, field)
    }

    open spec fn deserialize_spec(
        before: Self::Accumulator,
        field: &'static str,
        c: ContextView,
        d: DeView,
        r: Result<(), ErrorView>,
        after: Self::Accumulator,
        c2: ContextView,
        d2: DeView,
    ) -> bool {
        match before {
            Some(_) => r matches Err(e) && e == ErrorView::DuplicateValue(field@)
            && after == before,
            None => {
                let (res, c1, d1) = integer_outcome(
                    c,
                    d,
                    field@,
                    "i16"@,
                    true,
                    -32768,
                    32767,
                );
                &&& c2 == c1
                &&& d2 == d1
                &&& match res {
                    Ok(Some(v)) => r is Ok && after == Some(v as i16),
                    Ok(None) => r is Ok && after is None,
                    Err(e) => r matches Err(x) && x == e && after == before,
                }
            },
        }
    }

    fn deserialize(
        into: &mut Self::Accumulator,
        field: &'static str,
        deserializer: &mut Deserializer<'xml>,
        context: &mut Context<'xml>,
    ) -> (r: Result<(), Error>)
    {
        if into.is_some() {
            return Err(Error::DuplicateValue(field));
        }
        match deserialize_integer(field, deserializer, context, "i16", true, -32768, 32767) {
            Ok(Some(v)) => {
                *into = Some(v as i16);
                Ok(())
            },
            Ok(None) => Ok(()),
            Err(e) => Err(e),
        }
    }

    type Accumulator = Option<Self>;

    const KIND: Kind = Kind::Scalar;
}

impl<'xml> FromXml<'xml> for i32 {
    open spec fn matches_spec(id: IdView, field: Option<IdView>) -> bool {
        field_matches(id, field)
    }

    fn matches(id: Id<'_>, field: Option<Id<'_>>) -> bool {
        field_matches_exec(id, field)
    }

    open spec fn deserialize_spec(
        before: Self::Accumulator,
        field: &'static str,
        c: ContextView,
        d: DeView,
        r: Result<(), ErrorView>,
        after: Self::Accumulator,
        c2: ContextView,
        d2: DeView,
    ) -> bool {
        match before {
            Some(_) => r matches Err(e) && e == ErrorView::DuplicateValue(field@)
            && after == before,
            None => {
                let (res, c1, d1) = integer_outcome(
                    c,
                    d,
                    field@,
                    "i32"@,
                    true,
                    -2147483648,
                    2147483647,
                );
                &&& c2 == c1
                &&& d2 == d1
                &&& match res {
                    Ok(Some(v)) => r is Ok && after == Some(v as i32),
                    Ok(None) => r is Ok && after is None,
                    Err(e) => r matches Err(x) && x == e && after == before,
                }
            },
        }
    }

    fn deserialize(
        into: &mut Self::Accumulator,
        field: &'static str,
        deserializer: &mut Deserializer<'xml>,
        context: &mut Context<'xml>,
    ) -> (r: Result<(), Error>)
    {
        if into.is_some() {
            return Err(Error::DuplicateValue(field));
        }
        match deserialize_integer(field, deserializer, context, "i32", true, -2147483648, 2147483647) {
            Ok(Some(v)) => {
                *into = Some(v as i32);
                Ok(())
            },
            Ok(None) => Ok(()),
            Err(e) => Err(e),
        }
    }

    type Accumulator = Option<Self>;

    const KIND: Kind = Kind::Scalar;
}

impl<'xml> FromXml<'xml> for i64 {
    open spec fn matches_spec(id: IdView, field: Option<IdView>) -> bool {
        field_matches(id, field)
    }

    fn matches(id: Id<'_>, field: Option<Id<'_>>) -> bool {
        field_matches_exec(id, field)
    }

    open spec fn deserialize_spec(
        before: Self::Accumulator,
        field: &'static str,
        c: ContextView,
        d: DeView,
        r: Result<(), ErrorView>,
        after: Self::Accumulator,
        c2: ContextView,
        d2: DeView,
    ) -> bool {
        match before {
            Some(_) => r matches Err(e) && e == ErrorView::DuplicateValue(field@)
            && after == before,
            None => {
                let (res, c1, d1) = integer_outcome(
                    c,
                    d,
                    field@,
                    "i64"@,
                    true,
                    -9223372036854775808,
                    9223372036854775807,
                );
                &&& c2 == c1
                &&& d2 == d1
                &&& match res {
                    Ok(Some(v)) => r is Ok && after == Some(v as i64),
                    Ok(None) => r is Ok && after is None,
                    Err(e) => r matches Err(x) && x == e && after == before,
                }
            },
        }
    }

    fn deserialize(
        into: &mut Self::Accumulator,
        field: &'static str,
        deserializer: &mut Deserializer<'xml>,
        context: &mut Context<'xml>,
    ) -> (r: Result<(), Error>)
    {
        if into.is_some() {
            return Err(Error::DuplicateValue(field));
        }
        match deserialize_integer(field, deserializer, context, "i64", true, -9223372036854775808, 9223372036854775807) {
            Ok(Some(v)) => {
                *into = Some(v as i64);
                Ok(())
            },
            Ok(None) => Ok(()),
            Err(e) => Err(e),
        }
    }

    type Accumulator = Option<Self>;

    const KIND: Kind = Kind::Scalar;
}

impl<'xml> FromXml<'xml> for isize {
    open spec fn matches_spec(id: IdView, field: Option<IdView>) -> bool {
        field_matches(id, field)
    }

    fn matches(id: Id<'_>, field: Option<Id<'_>>) -> bool {
        field_matches_exec(id, field)
    }

    open spec fn deserialize_spec(
        before: Self::Accumulator,
        field: &'static str,
        c: ContextView,
        d: DeView,
        r: Result<(), ErrorView>,
        after: Self::Accumulator,
        c2: ContextView,
        d2: DeView,
    ) -> bool {
        match before {
            Some(_) => r matches Err(e) && e == ErrorView::DuplicateValue(field@)
            && after == before,
            None => {
                let (res, c1, d1) = integer_outcome(
                    c,
                    d,
                    field@,
                    "isize"@,
                    true,
                    isize::MIN as int,
                    isize::MAX as int,
                );
                &&& c2 == c1
                &&& d2 == d1
                &&& match res {
                    Ok(Some(v)) => r is Ok && after == Some(v as isize),
                    Ok(None) => r is Ok && after is None,
                    Err(e) => r matches Err(x) && x == e && after == before,
                }
            },
        }
    }

    fn deserialize(
        into: &mut Self::Accumulator,
        field: &'static str,
        deserializer: &mut Deserializer<'xml>,
        context: &mut Context<'xml>,
    ) -> (r: Result<(), Error>)
    {
        if into.is_some() {
            return Err(Error::DuplicateValue(field));
        }
        match deserialize_integer(field, deserializer, context, "isize", true, isize::MIN as i128, isize::MAX as i128) {
            Ok(Some(v)) => {
                *into = Some(v as isize);
                Ok(())
            },
            Ok(None) => Ok(()),
            Err(e) => Err(e),
        }
    }

    type Accumulator = Option<Self>;

    const KIND: Kind = Kind::Scalar;
}

impl<'xml> FromXml<'xml> for u8 {
    open spec fn matches_spec(id: IdView, field: Option<IdView>) -> bool {
        field_matches(id, field)
    }

    fn matches(id: Id<'_>, field: Option<Id<'_>>) -> bool {
        field_matches_exec(id, field)
    }

    open spec fn deserialize_spec(
        before: Self::Accumulator,
        field: &'static str,
        c: ContextView,
        d: DeView,
        r: Result<(), ErrorView>,
        after: Self::Accumulator,
        c2: ContextView,
        d2: DeView,
    ) -> bool {
        match before {
            Some(_) => r matches Err(e) && e == ErrorView::DuplicateValue(field@)
            && after == before,
            None => {
                let (res, c1, d1) = integer_outcome(
                    c,
                    d,
                    field@,
                    "u8"@,
                    false,
                    0,
                    255,
                );
                &&& c2 == c1
                &&& d2 == d1
                &&& match res {
                    Ok(Some(v)) => r is Ok && after == Some(v as u8),
                    Ok(None) => r is Ok && after is None,
                    Err(e) => r matches Err(x) && x == e && after == before,
                }
            },
        }
    }

    fn deserialize(
        into: &mut Self::Accumulator,
        field: &'static str,
        deserializer: &mut Deserializer<'xml>,
        context: &mut Context<'xml>,
    ) -> (r: Result<(), Error>)
    {
        if into.is_some() {
            return Err(Error::DuplicateValue(field));
        }
        match deserialize_integer(field, deserializer, context, "u8", false, 0, 255) {
            Ok(Some(v)) => {
                *into = Some(v as u8);
                Ok(())
            },
            Ok(None) => Ok(()),
            Err(e) => Err(e),
        }
    }

    type Accumulator = Option<Self>;

    const KIND: Kind = Kind::Scalar;
}

impl<'xml> FromXml<'xml> for u16 {
    open spec fn matches_spec(id: IdView, field: Option<IdView>) -> bool {
        field_matches(id, field)
    }

    fn matches(id: Id<'_>, field: Option<Id<'_>>) -> bool {
        field_matches_exec(id, field)
    }

    open spec fn deserialize_spec(
        before: Self::Accumulator,
        field: &'static str,
        c: ContextView,
        d: DeView,
        r: Result<(), ErrorView>,
        after: Self::Accumulator,
        c2: ContextView,
        d2: DeView,
    ) -> bool {
        match before {
            Some(_) => r matches Err(e) && e == ErrorView::DuplicateValue(field@)
            && after == before,
            None => {
                let (res, c1, d1) = integer_outcome(
                    c,
                    d,
                    field@,
                    "u16"@,
                    false,
                    0,
                    65535,
                );
                &&& c2 == c1
                &&& d2 == d1
                &&& match res {
                    Ok(Some(v)) => r is Ok && after == Some(v as u16),
                    Ok(None) => r is Ok && after is None,
                    Err(e) => r matches Err(x) && x == e && after == before,
                }
            },
        }
    }

    fn deserialize(
        into: &mut Self::Accumulator,
        field: &'static str,
        deserializer: &mut Deserializer<'xml>,
        context: &mut Context<'xml>,
    ) -> (r: Result<(), Error>)
    {
        if into.is_some() {
            return Err(Error::DuplicateValue(field));
        }
        match deserialize_integer(field, deserializer, context, "u16", false, 0, 65535) {
            Ok(Some(v)) => {
                *into = Some(v as u16);
                Ok(())
            },
            Ok(None) => Ok(()),
            Err(e) => Err(e),
        }
    }

    type Accumulator = Option<Self>;

    const KIND: Kind = Kind::Scalar;
}

impl<'xml> FromXml<'xml> for u32 {
    open spec fn matches_spec(id: IdView, field: Option<IdView>) -> bool {
        field_matches(id, field)
    }

    fn matches(id: Id<'_>, field: Option<Id<'_>>) -> bool {
        field_matches_exec(id, field)
    }

    open spec fn deserialize_spec(
        before: Self::Accumulator,
        field: &'static str,
        c: ContextView,
        d: DeView,
        r: Result<(), ErrorView>,
        after: Self::Accumulator,
        c2: ContextView,
        d2: DeView,
    ) -> bool {
        match before {
            Some(_) => r matches Err(e) && e == ErrorView::DuplicateValue(field@)
            && after == before,
            None => {
                let (res, c1, d1) = integer_outcome(
                    c,
                    d,
                    field@,
                    "u32"@,
                    false,
                    0,
                    4294967295,
                );
                &&& c2 == c1
                &&& d2 == d1
                &&& match res {
                    Ok(Some(v)) => r is Ok && after == Some(v as u32),
                    Ok(None) => r is Ok && after is None,
                    Err(e) => r matches Err(x) && x == e && after == before,
                }
            },
        }
    }

    fn deserialize(
        into: &mut Self::Accumulator,
        field: &'static str,
        deserializer: &mut Deserializer<'xml>,
        context: &mut Context<'xml>,
    ) -> (r: Result<(), Error>)
    {
        if into.is_some() {
            return Err(Error::DuplicateValue(field));
        }
        match deserialize_integer(field, deserializer, context, "u32", false, 0, 4294967295) {
            Ok(Some(v)) => {
                *into = Some(v as u32);
                Ok(())
            },
            Ok(None) => Ok(()),
            Err(e) => Err(e),
        }
    }

    type Accumulator = Option<Self>;

    const KIND: Kind = Kind::Scalar;
}

impl<'xml> FromXml<'xml> for u64 {
    open spec fn matches_spec(id: IdView, field: Option<IdView>) -> bool {
        field_matches(id, field)
    }

    fn matches(id: Id<'_>, field: Option<Id<'_>>) -> bool {
        field_matches_exec(id, field)
    }

    open spec fn deserialize_spec(
        before: Self::Accumulator,
        field: &'static str,
        c: ContextView,
        d: DeView,
        r: Result<(), ErrorView>,
        after: Self::Accumulator,
        c2: ContextView,
        d2: DeView,
    ) -> bool {
        match before {
            Some(_) => r matches Err(e) && e == ErrorView::DuplicateValue(field@)
            && after == before,
            None => {
                let (res, c1, d1) = integer_outcome(
                    c,
                    d,
                    field@,
                    "u64"@,
                    false,
                    0,
                    18446744073709551615,
                );
                &&& c2 == c1
                &&& d2 == d1
                &&& match res {
                    Ok(Some(v)) => r is Ok && after == Some(v as u64),
                    Ok(None) => r is Ok && after is None,
                    Err(e) => r matches Err(x) && x == e && after == before,
                }
            },
        }
    }

    fn deserialize(
        into: &mut Self::Accumulator,
        field: &'static str,
        deserializer: &mut Deserializer<'xml>,
        context: &mut Context<'xml>,
    ) -> (r: Result<(), Error>)
    {
        if into.is_some() {
            return Err(Error::DuplicateValue(field));
        }
        match deserialize_integer(field, deserializer, context, "u64", false, 0, 18446744073709551615) {
            Ok(Some(v)) => {
                *into = Some(v as u64);
                Ok(())
            },
            Ok(None) => Ok(()),
            Err(e) => Err(e),
        }
    }

    type Accumulator = Option<Self>;

    const KIND: Kind = Kind::Scalar;
}

impl<'xml> FromXml<'xml> for usize {
    open spec fn matches_spec(id: IdView, field: Option<IdView>) -> bool {
        field_matches(id, field)
    }

    fn matches(id: Id<'_>, field: Option<Id<'_>>) -> bool {
        field_matches_exec(id, field)
    }

    open spec fn deserialize_spec(
        before: Self::Accumulator,
        field: &'static str,
        c: ContextView,
        d: DeView,
        r: Result<(), ErrorView>,
        after: Self::Accumulator,
        c2: ContextView,
        d2: DeView,
    ) -> bool {
        match before {
            Some(_) => r matches Err(e) && e == ErrorView::DuplicateValue(field@)
            && after == before,
            None => {
                let (res, c1, d1) = integer_outcome(
                    c,
                    d,
                    field@,
                    "usize"@,
                    false,
                    0,
                    usize::MAX as int,
                );
                &&& c2 == c1
                &&& d2 == d1
                &&& match res {
                    Ok(Some(v)) => r is Ok && after == Some(v as usize),
                    Ok(None) => r is Ok && after is None,
                    Err(e) => r matches Err(x) && x == e && after == before,
                }
            },
        }
    }

    fn deserialize(
        into: &mut Self::Accumulator,
        field: &'static str,
        deserializer: &mut Deserializer<'xml>,
        context: &mut Context<'xml>,
    ) -> (r: Result<(), Error>)
    {
        if into.is_some() {
            return Err(Error::DuplicateValue(field));
        }
        match deserialize_integer(field, deserializer, context, "usize", false, 0, usize::MAX as i128) {
            Ok(Some(v)) => {
                *into = Some(v as usize);
                Ok(())
            },
            Ok(None) => Ok(()),
            Err(e) => Err(e),
        }
    }

    type Accumulator = Option<Self>;

    const KIND: Kind = Kind::Scalar;
}

/// The character that the text `s` holds, surrounding whitespace aside.
pub open spec fn parse_char(s: Seq<char>) -> Option<char> {
    if trim_spec(s).len() == 1 {
        Some(trim_spec(s)[0])
    } else {
        None
    }
}

impl<'xml> FromXml<'xml> for char {
    open spec fn matches_spec(id: IdView, field: Option<IdView>) -> bool {
        field_matches(id, field)
    }

    fn matches(id: Id<'_>, field: Option<Id<'_>>) -> bool {
        field_matches_exec(id, field)
    }

    open spec fn deserialize_spec(
        before: Self::Accumulator,
        field: &'static str,
        c: ContextView,
        d: DeView,
        r: Result<(), ErrorView>,
        after: Self::Accumulator,
        c2: ContextView,
        d2: DeView,
    ) -> bool {
        match before {
            Some(_) => r matches Err(e) && e == ErrorView::DuplicateValue(field@)
            && after == before,
            None => {
                let (res, c1, d1) = take_str_spec(c, d);
                &&& c2 == c1
                &&& d2 == d1
                &&& match res {
                    Ok(Some(s)) => match parse_char(s) {
                        Some(ch) => r is Ok && after == Some(ch),
                        None => r matches Err(x) && x == ErrorView::UnexpectedValue(
                            parse_failure("char"@, s, field@),
                        ),
                    },
                    Ok(None) => r is Ok && after is None,
                    Err(e) => r matches Err(x) && x == e && after == before,
                }
            },
        }
    }

    #[verifier::spinoff_prover]
    #[verifier::rlimit(40)]
    fn deserialize(
        into: &mut Self::Accumulator,
        field: &'static str,
        deserializer: &mut Deserializer<'xml>,
        context: &mut Context<'xml>,
    ) -> (r: Result<(), Error>)
    {
        if into.is_some() {
            return Err(Error::DuplicateValue(field));
        }
        let value = match deserializer.take_str(context) {
            Ok(Some(value)) => value,
            Ok(None) => return Ok(()),
            Err(e) => return Err(e),
        };
        let chars = str_chars(cow_str(&value));
        let (lo, hi) = trim_bounds(&chars);
        if hi - lo == 1 {
            *into = Some(chars[lo]);
            Ok(())
        } else {
            Err(Error::UnexpectedValue(parse_failure_message("char", cow_str(&value), field)))
        }
    }

    type Accumulator = Option<Self>;

    const KIND: Kind = Kind::Scalar;
}

/// The boolean that the text `s` holds.
pub open spec fn parse_bool(s: Seq<char>) -> Option<bool> {
    if s == seq!['t', 'r', 'u', 'e'] || s == seq!['1'] {
        Some(true)
    } else if s == seq!['f', 'a', 'l', 's', 'e'] || s == seq!['0'] {
        Some(false)
    } else {
        None
    }
}

fn parse_bool_exec(s: &str) -> (r: Option<bool>)
    ensures
        r == parse_bool(s@),
{
    proof {
        reveal_strlit("true");
        reveal_strlit("1");
        reveal_strlit("false");
        reveal_strlit("0");
        assert("true"@ =~= seq!['t', 'r', 'u', 'e']);
        assert("1"@ =~= seq!['1']);
        assert("false"@ =~= seq!['f', 'a', 'l', 's', 'e']);
        assert("0"@ =~= seq!['0']);
    }
    if str_eq(s, "true") || str_eq(s, "1") {
        Some(true)
    } else if str_eq(s, "false") || str_eq(s, "0") {
        Some(false)
    } else {
        None
    }
}

impl<'xml> FromXml<'xml> for bool {
    open spec fn matches_spec(id: IdView, field: Option<IdView>) -> bool {
        field_matches(id, field)
    }

    fn matches(id: Id<'_>, field: Option<Id<'_>>) -> bool {
        field_matches_exec(id, field)
    }

    open spec fn deserialize_spec(
        before: Self::Accumulator,
        field: &'static str,
        c: ContextView,
        d: DeView,
        r: Result<(), ErrorView>,
        after: Self::Accumulator,
        c2: ContextView,
        d2: DeView,
    ) -> bool {
        match before {
            Some(_) => r matches Err(e) && e == ErrorView::DuplicateValue(field@)
            && after == before,
            None => {
                let (res, c1, d1) = take_str_spec(c, d);
                &&& c2 == c1
                &&& d2 == d1
                &&& match res {
                    Ok(Some(s)) => match parse_bool(s) {
                        Some(b) => r is Ok && after == Some(b),
                        None => r matches Err(x) && x == ErrorView::UnexpectedValue(
                            "unable to parse bool from '"@ + s + "' for "@ + field@,
                        ),
                    },
                    Ok(None) => r is Ok && after is None,
                    Err(e) => r matches Err(x) && x == e && after == before,
                }
            },
        }
    }

    fn deserialize(
        into: &mut Self::Accumulator,
        field: &'static str,
        deserializer: &mut Deserializer<'xml>,
        context: &mut Context<'xml>,
    ) -> (r: Result<(), Error>)
    {
        if into.is_some() {
            return Err(Error::DuplicateValue(field));
        }
        let value = match deserializer.take_str(context) {
            Ok(Some(value)) => value,
            Ok(None) => return Ok(()),
            Err(e) => return Err(e),
        };
        match parse_bool_exec(cow_str(&value)) {
            Some(b) => {
                *into = Some(b);
                Ok(())
            },
            None => {
                let mut message = String::from_str("unable to parse bool from '");
                message.append(cow_str(&value));
                message.append("' for ");
                message.append(field);
                Err(Error::UnexpectedValue(message))
            },
        }
    }

    type Accumulator = Option<bool>;

    const KIND: Kind = Kind::Scalar;
}

fn cow_into_string<'a>(c: Cow<'a, str>) -> (r: String)
    ensures
        r@ == c@,
{
    match c {
        Cow::Borrowed(s) => s.to_owned(),
        Cow::Owned(s) => s,
    }
}

impl<'xml> FromXml<'xml> for String {
    open spec fn matches_spec(id: IdView, field: Option<IdView>) -> bool {
        field_matches(id, field)
    }

    fn matches(id: Id<'_>, field: Option<Id<'_>>) -> bool {
        field_matches_exec(id, field)
    }

    open spec fn deserialize_spec(
        before: Self::Accumulator,
        field: &'static str,
        c: ContextView,
        d: DeView,
        r: Result<(), ErrorView>,
        after: Self::Accumulator,
        c2: ContextView,
        d2: DeView,
    ) -> bool {
        match before {
            Some(_) => r matches Err(e) && e == ErrorView::DuplicateValue(field@)
            && after == before,
            None => {
                let (res, c1, d1) = take_str_spec(c, d);
                &&& c2 == c1
                &&& d2 == d1
                &&& match res {
                    Ok(Some(s)) => r is Ok && (after matches Some(v) && v@ == s),
                    Ok(None) => r is Ok && (after matches Some(v) && v@ == Seq::<char>::empty()),
                    Err(e) => r matches Err(x) && x == e && after == before,
                }
            },
        }
    }

    fn deserialize(
        into: &mut Self::Accumulator,
        field: &'static str,
        deserializer: &mut Deserializer<'xml>,
        context: &mut Context<'xml>,
    ) -> (r: Result<(), Error>)
    {
        if into.is_some() {
            return Err(Error::DuplicateValue(field));
        }
        *into = Some(
            match deserializer.take_str(context) {
                Ok(Some(value)) => cow_into_string(value),
                Ok(None) => String::new(),
                Err(e) => return Err(e),
            },
        );
        Ok(())
    }

    type Accumulator = Option<String>;

    const KIND: Kind = Kind::Scalar;
}

/// The accumulator of a `Cow<str>` value.
pub struct CowStrAccumulator<'xml, 'a> {
    pub(crate) inner: Option<Cow<'a, str>>,
    marker: PhantomData<&'xml str>,
}

impl<'xml, 'a> View for CowStrAccumulator<'xml, 'a> {
    /// The text accumulated, if any, and whether it borrows from the input.
    type V = Option<(Seq<char>, bool)>;

    closed spec fn view(&self) -> Option<(Seq<char>, bool)> {
        match &self.inner {
            Some(c) => Some((c@, cow_borrowed(*c))),
            None => None,
        }
    }
}

impl<'xml, 'a> Default for CowStrAccumulator<'xml, 'a> {
    fn default() -> (r: Self)
        ensures
            r@ is None,
    {
        CowStrAccumulator { inner: None, marker: PhantomData }
    }
}

impl<'xml, 'a> CowStrAccumulator<'xml, 'a> {
    /// Whether a value was accumulated.
    pub fn is_some(&self) -> (r: bool)
        ensures
            r == self@ is Some,
    {
        self.inner.is_some()
    }

    /// Stores the accumulated value.
    pub fn set(&mut self, value: Cow<'a, str>)
        ensures
            final(self)@ == Some((value@, cow_borrowed(value))),
    {
        self.inner = Some(value);
    }
}

impl<'xml, 'a> Accumulate<Cow<'a, str>> for CowStrAccumulator<'xml, 'a> {
    /// The text accumulated, or a missing value.
    open spec fn try_done_spec(self, field: &'static str, r: Result<Cow<'a, str>, ErrorView>) -> bool {
        match self@ {
            Some((v, b)) => r matches Ok(c) && c@ == v && cow_borrowed(c) == b,
            None => r == Err::<Cow<'a, str>, ErrorView>(ErrorView::MissingValue(field@)),
        }
    }

    fn try_done(self, field: &'static str) -> (r: Result<Cow<'a, str>, Error>) {
        match self.inner {
            Some(inner) => Ok(inner),
            None => Err(Error::MissingValue(field)),
        }
    }
}

impl<'xml: 'a, 'a> FromXml<'xml> for Cow<'a, str> {
    open spec fn matches_spec(id: IdView, field: Option<IdView>) -> bool {
        field_matches(id, field)
    }

    fn matches(id: Id<'_>, field: Option<Id<'_>>) -> bool {
        field_matches_exec(id, field)
    }

    open spec fn deserialize_spec(
        before: Self::Accumulator,
        field: &'static str,
        c: ContextView,
        d: DeView,
        r: Result<(), ErrorView>,
        after: Self::Accumulator,
        c2: ContextView,
        d2: DeView,
    ) -> bool {
        match before@ {
            Some(_) => r matches Err(e) && e == ErrorView::DuplicateValue(field@)
            && after@ == before@,
            None => {
                let (res, c1, d1) = take_str_spec(c, d);
                &&& c2 == c1
                &&& d2 == d1
                &&& match res {
                    Ok(Some(s)) => r is Ok && after@ == Some((s, take_str_borrows(c, d))),
                    Ok(None) => r is Ok && after@ == Some((Seq::<char>::empty(), true)),
                    Err(e) => r matches Err(x) && x == e && after@ == before@,
                }
            },
        }
    }

    fn deserialize(
        into: &mut Self::Accumulator,
        field: &'static str,
        deserializer: &mut Deserializer<'xml>,
        context: &mut Context<'xml>,
    ) -> (r: Result<(), Error>)
    {
        if into.is_some() {
            return Err(Error::DuplicateValue(field));
        }
        proof {
            reveal_strlit("");
            assert(""@ =~= Seq::<char>::empty());
        }
        let value: Cow<'a, str> = match deserializer.take_str(context) {
            Ok(Some(value)) => value,
            Ok(None) => Cow::Borrowed(""),
            Err(e) => return Err(e),
        };
        into.set(value);
        Ok(())
    }

    type Accumulator = CowStrAccumulator<'xml, 'a>;

    const KIND: Kind = Kind::Scalar;
}

impl<'xml> FromXml<'xml> for () {
    open spec fn matches_spec(id: IdView, field: Option<IdView>) -> bool {
        field_matches(id, field)
    }

    fn matches(id: Id<'_>, field: Option<Id<'_>>) -> bool {
        field_matches_exec(id, field)
    }

    open spec fn deserialize_spec(
        before: Self::Accumulator,
        field: &'static str,
        c: ContextView,
        d: DeView,
        r: Result<(), ErrorView>,
        after: Self::Accumulator,
        c2: ContextView,
        d2: DeView,
    ) -> bool {
        &&& r is Ok
        &&& after == Some(())
        &&& c2 == c
        &&& d2 == d
    }

    fn deserialize(
        into: &mut Self::Accumulator,
        _field: &'static str,
        _deserializer: &mut Deserializer<'xml>,
        _context: &mut Context<'xml>,
    ) -> (r: Result<(), Error>)
    {
        *into = Some(());
        Ok(())
    }

    type Accumulator = Option<Self>;

    const KIND: Kind = Kind::Scalar;
}

/// The accumulator of an optional value: accumulates the value, which may never come.
pub struct OptionAccumulator<T, A: Accumulate<T>> {
    value: A,
    marker: PhantomData<T>,
}

impl<T, A: Accumulate<T>> OptionAccumulator<T, A> {
    /// The accumulator of the value.
    pub closed spec fn inner(&self) -> A {
        self.value
    }

    /// The accumulator of the value.
    pub fn get_mut(&mut self) -> (r: &mut A)
        ensures
            *r == old(self).inner(),
            final(self).inner() == *final(r),
    {
        &mut self.value
    }
}

impl<T, A: Accumulate<T>> Default for OptionAccumulator<T, A> {
    fn default() -> Self {
        OptionAccumulator { value: A::default(), marker: PhantomData }
    }
}

impl<T, A: Accumulate<T>> Accumulate<Option<T>> for OptionAccumulator<T, A> {
    /// The value that the inner accumulator gives, or nothing where it gives an error.
    open spec fn try_done_spec(self, field: &'static str, r: Result<Option<T>, ErrorView>) -> bool {
        exists|inner: Result<T, ErrorView>|
            #[trigger] self.inner().try_done_spec(field, inner) && r == match inner {
                Ok(v) => Ok::<Option<T>, ErrorView>(Some(v)),
                Err(_) => Ok(None),
            }
    }

    fn try_done(self, field: &'static str) -> (r: Result<Option<T>, Error>) {
        let ghost inner = self.inner();
        match self.value.try_done(field) {
            Ok(value) => {
                assert(inner.try_done_spec(field, Ok(value)));
                Ok(Some(value))
            },
            Err(e) => {
                assert(inner.try_done_spec(field, Err(e@)));
                Ok(None)
            },
        }
    }
}

/// What reading a value of `T` into a fresh accumulator and converting it gives: `T`'s
/// deserialization from some accumulator that `Default` gives, then its conversion. `stored`
/// says where a value that comes out ends up, `kept` what holds where none does.
pub open spec fn read_fresh<'xml, T: FromXml<'xml>>(
    field: &'static str,
    c: ContextView,
    d: DeView,
    c2: ContextView,
    d2: DeView,
    r: Result<(), ErrorView>,
    stored: spec_fn(T) -> bool,
    kept: bool,
) -> bool {
    exists|first: T::Accumulator, filled: T::Accumulator, rd: Result<(), ErrorView>|
        #[trigger] T::deserialize_spec(first, field, c, d, rd, filled, c2, d2) && match rd {
            Err(e) => r == Err::<(), ErrorView>(e) && kept,
            Ok(()) => exists|rt: Result<T, ErrorView>|
                #[trigger] filled.try_done_spec(field, rt) && match rt {
                    Ok(v) => r == Ok::<(), ErrorView>(()) && stored(v),
                    Err(e) => r == Err::<(), ErrorView>(e) && kept,
                },
        }
}

impl<'xml, T: FromXml<'xml>> FromXml<'xml> for Option<T> {
    open spec fn matches_spec(id: IdView, field: Option<IdView>) -> bool {
        T::matches_spec(id, field)
    }

    fn matches(id: Id<'_>, field: Option<Id<'_>>) -> bool {
        T::matches(id, field)
    }

    /// Deserializes into the accumulator of the value.
    open spec fn deserialize_spec(
        before: Self::Accumulator,
        field: &'static str,
        c: ContextView,
        d: DeView,
        r: Result<(), ErrorView>,
        after: Self::Accumulator,
        c2: ContextView,
        d2: DeView,
    ) -> bool {
        T::deserialize_spec(before.inner(), field, c, d, r, after.inner(), c2, d2)
    }

    fn deserialize(
        into: &mut Self::Accumulator,
        field: &'static str,
        deserializer: &mut Deserializer<'xml>,
        context: &mut Context<'xml>,
    ) -> (r: Result<(), Error>) {
        T::deserialize(into.get_mut(), field, deserializer, context)
    }

    type Accumulator = OptionAccumulator<T, T::Accumulator>;

    const KIND: Kind = T::KIND;
}

impl<'xml, T: FromXml<'xml>> FromXml<'xml> for Box<T> {
    open spec fn matches_spec(id: IdView, field: Option<IdView>) -> bool {
        T::matches_spec(id, field)
    }

    fn matches(id: Id<'_>, field: Option<Id<'_>>) -> bool {
        T::matches(id, field)
    }

    /// Deserializes a value of `T` from a fresh accumulator, then boxes it.
    open spec fn deserialize_spec(
        before: Self::Accumulator,
        field: &'static str,
        c: ContextView,
        d: DeView,
        r: Result<(), ErrorView>,
        after: Self::Accumulator,
        c2: ContextView,
        d2: DeView,
    ) -> bool {
        match before {
            Some(_) => r == Err::<(), ErrorView>(ErrorView::DuplicateValue(field@)) && after
                == before && c2 == c && d2 == d,
            None => read_fresh::<T>(field, c, d, c2, d2, r, |v: T| after == Some(Box::new(v)), after is None),
        }
    }

    fn deserialize(
        into: &mut Self::Accumulator,
        field: &'static str,
        deserializer: &mut Deserializer<'xml>,
        context: &mut Context<'xml>,
    ) -> (r: Result<(), Error>) {
        if into.is_some() {
            return Err(Error::DuplicateValue(field));
        }
        let mut value = T::Accumulator::default();
        let ghost first = value;
        match T::deserialize(&mut value, field, deserializer, context) {
            Ok(()) => {},
            Err(e) => {
                assert(T::deserialize_spec(first, field, old(context)@, old(deserializer)@, Err(e@), value, context@, deserializer@));
                return Err(e);
            },
        }
        let ghost filled = value;
        match value.try_done(field) {
            Ok(v) => {
                *into = Some(Box::new(v));
                assert(filled.try_done_spec(field, Ok(v)));
                Ok(())
            },
            Err(e) => {
                assert(filled.try_done_spec(field, Err(e@)));
                Err(e)
            },
        }
    }

    type Accumulator = Option<Self>;

    const KIND: Kind = T::KIND;
}

impl<'xml, T: FromXml<'xml>> FromXml<'xml> for Vec<T> {
    open spec fn matches_spec(id: IdView, field: Option<IdView>) -> bool {
        T::matches_spec(id, field)
    }

    fn matches(id: Id<'_>, field: Option<Id<'_>>) -> bool {
        T::matches(id, field)
    }

    /// Deserializes a value of `T` from a fresh accumulator, then appends it.
    open spec fn deserialize_spec(
        before: Self::Accumulator,
        field: &'static str,
        c: ContextView,
        d: DeView,
        r: Result<(), ErrorView>,
        after: Self::Accumulator,
        c2: ContextView,
        d2: DeView,
    ) -> bool {
        read_fresh::<T>(
            field,
            c,
            d,
            c2,
            d2,
            r,
            |v: T| after@ == before@.push(v),
            after == before,
        )
    }

    fn deserialize(
        into: &mut Self::Accumulator,
        field: &'static str,
        deserializer: &mut Deserializer<'xml>,
        context: &mut Context<'xml>,
    ) -> (r: Result<(), Error>) {
        let mut value = T::Accumulator::default();
        let ghost first = value;
        match T::deserialize(&mut value, field, deserializer, context) {
            Ok(()) => {},
            Err(e) => {
                assert(T::deserialize_spec(first, field, old(context)@, old(deserializer)@, Err(e@), value, context@, deserializer@));
                return Err(e);
            },
        }
        let ghost filled = value;
        match value.try_done(field) {
            Ok(v) => {
                into.push(v);
                assert(filled.try_done_spec(field, Ok(v)));
                Ok(())
            },
            Err(e) => {
                assert(filled.try_done_spec(field, Err(e@)));
                Err(e)
            },
        }
    }

    type Accumulator = Vec<T>;

    const KIND: Kind = T::KIND;
}

impl<'a, T> Accumulate<Cow<'a, [T]>> for Vec<T> where [T]: ToOwned<Owned = Vec<T>> {
    /// The items accumulated, owned.
    open spec fn try_done_spec(self, field: &'static str, r: Result<Cow<'a, [T]>, ErrorView>) -> bool {
        r == Ok::<Cow<'a, [T]>, ErrorView>(Cow::Owned(self))
    }

    fn try_done(self, _field: &'static str) -> (r: Result<Cow<'a, [T]>, Error>) {
        Ok(Cow::Owned(self))
    }
}

// The `FromXml` implementation for `Cow<'a, [T]>` always builds a `Cow::Owned`:
// it is not possible to deserialize into a `Cow::Borrowed` because there's no
// place to store the originating slice (length only known at run-time).
impl<'xml, 'a, T: FromXml<'xml>> FromXml<'xml> for Cow<'a, [T]> where [T]: ToOwned<Owned = Vec<T>> {
    open spec fn matches_spec(id: IdView, field: Option<IdView>) -> bool {
        T::matches_spec(id, field)
    }

    fn matches(id: Id<'_>, field: Option<Id<'_>>) -> bool {
        T::matches(id, field)
    }

    /// Deserializes a value of `T` from a fresh accumulator, then appends it.
    open spec fn deserialize_spec(
        before: Self::Accumulator,
        field: &'static str,
        c: ContextView,
        d: DeView,
        r: Result<(), ErrorView>,
        after: Self::Accumulator,
        c2: ContextView,
        d2: DeView,
    ) -> bool {
        read_fresh::<T>(
            field,
            c,
            d,
            c2,
            d2,
            r,
            |v: T| after@ == before@.push(v),
            after == before,
        )
    }

    fn deserialize(
        into: &mut Self::Accumulator,
        field: &'static str,
        deserializer: &mut Deserializer<'xml>,
        context: &mut Context<'xml>,
    ) -> (r: Result<(), Error>) {
        let mut value = T::Accumulator::default();
        let ghost first = value;
        match T::deserialize(&mut value, field, deserializer, context) {
            Ok(()) => {},
            Err(e) => {
                assert(T::deserialize_spec(first, field, old(context)@, old(deserializer)@, Err(e@), value, context@, deserializer@));
                return Err(e);
            },
        }
        let ghost filled = value;
        match value.try_done(field) {
            Ok(v) => {
                into.push(v);
                assert(filled.try_done_spec(field, Ok(v)));
                Ok(())
            },
            Err(e) => {
                assert(filled.try_done_spec(field, Err(e@)));
                Err(e)
            },
        }
    }

    type Accumulator = Vec<T>;

    const KIND: Kind = Kind::Scalar;
}


// Serializer

/// What writing the scalar text `text` for the field `field` does: the text alone where there is
/// no field, else an element of the field's name that holds it. Gives the result and the
/// serializer after.
pub open spec fn scalar_written(s: SerView, text: Seq<char>, field: Option<IdView>) -> (
    Result<(), ErrorView>,
    SerView,
) {
    match field {
        None => if s.state == State::Attribute {
            (Err(state_error("invalid state for scalar")), s)
        } else {
            (Ok(()), SerView { output: s.output + text, state: State::Element, ..s })
        },
        Some(id) => if s.state != State::Element {
            (Err(state_error("invalid state for element start")), s)
        } else {
            let (tag, prefix) = start_tag(id.name, id.ns, s.default_ns, s.prefixes);
            (
                Ok(()),
                SerView {
                    output: s.output + tag + seq!['>'] + text + end_tag(prefix, id.name),
                    state: State::Element,
                    ..s
                },
            )
        },
    }
}

/// Writing a scalar only appends to the output.
pub proof fn lemma_scalar_written_grows(s: SerView, text: Seq<char>, field: Option<IdView>)
    ensures
        s.output.is_prefix_of(scalar_written(s, text, field).1.output),
{
    let out = scalar_written(s, text, field).1.output;
    assert forall|k: int| 0 <= k < s.output.len() implies s.output[k] == out[k] by {}
}

/// Writes `value`, text that is already escaped, for the field `field`: an element of the
/// field's name holding it, or the text alone where there is no field.
pub fn display_to_xml(value: &str, field: Option<Id<'_>>, serializer: &mut Serializer) -> (r: Result<
    (),
    Error,
>)
    ensures
        (unit_result_view(r), final(serializer)@) == scalar_written(
            old(serializer)@,
            value@,
            opt_id(field),
        ),
{
    match field {
        Some(id) => {
            let ghost s0 = serializer@;
            let element = match serializer.write_start(id.name, id.ns, None) {
                Ok(element) => element,
                Err(e) => return Err(e),
            };
            let ghost tag = start_tag(id.name@, id.ns@, s0.default_ns, s0.prefixes).0;
            match serializer.end_start() {
                Ok(()) => {},
                Err(e) => return Err(e),
            }
            match serializer.write_str(value) {
                Ok(()) => {},
                Err(e) => return Err(e),
            }
            let r = serializer.write_close(element);
            assert(serializer@.output =~= s0.output + tag + seq!['>'] + value@ + end_tag(
                element@.prefix,
                id.name@,
            ));
            r
        },
        None => serializer.write_str(value),
    }
}

/// The character of the decimal digit `d`.
pub open spec fn digit_char(d: nat) -> char {
    if d == 0 {
        '0'
    } else if d == 1 {
        '1'
    } else if d == 2 {
        '2'
    } else if d == 3 {
        '3'
    } else if d == 4 {
        '4'
    } else if d == 5 {
        '5'
    } else if d == 6 {
        '6'
    } else if d == 7 {
        '7'
    } else if d == 8 {
        '8'
    } else {
        '9'
    }
}

/// The decimal digits of `n`, most significant first, without leading zeros.
pub open spec fn decimal_nat(n: nat) -> Seq<char>
    decreases n,
{
    if n < 10 {
        seq![digit_char(n)]
    } else {
        decimal_nat(n / 10).push(digit_char(n % 10))
    }
}

/// `n` in decimal, as `Display` writes integers: a `-` before the digits of a negative number.
pub open spec fn decimal(n: int) -> Seq<char> {
    if n < 0 {
        seq!['-'] + decimal_nat((-n) as nat)
    } else {
        decimal_nat(n as nat)
    }
}

fn digit_char_exec(d: u8) -> (c: char)
    requires
        d < 10,
    ensures
        c == digit_char(d as nat),
{
    match d {
        0 => '0',
        1 => '1',
        2 => '2',
        3 => '3',
        4 => '4',
        5 => '5',
        6 => '6',
        7 => '7',
        8 => '8',
        _ => '9',
    }
}

fn push_decimal(out: &mut String, n: u64)
    ensures
        final(out)@ == old(out)@ + decimal_nat(n as nat),
    decreases n,
{
    if n >= 10 {
        push_decimal(out, n / 10);
    }
    push_char(out, digit_char_exec((n % 10) as u8));
    assert(out@ =~= old(out)@ + decimal_nat(n as nat));
}

/// The decimal text of a signed integer.
fn signed_text(v: i64) -> (r: String)
    ensures
        r@ == decimal(v as int),
{
    let mut out = String::new();
    if v < 0 {
        push_char(&mut out, '-');
        let magnitude: u64 = if v == i64::MIN {
            0x8000_0000_0000_0000u64
        } else {
            (-v) as u64
        };
        push_decimal(&mut out, magnitude);
    } else {
        push_decimal(&mut out, v as u64);
    }
    assert(out@ =~= decimal(v as int));
    out
}

/// The decimal text of an unsigned integer.
fn unsigned_text(v: u64) -> (r: String)
    ensures
        r@ == decimal(v as int),
{
    let mut out = String::new();
    push_decimal(&mut out, v);
    assert(out@ =~= decimal(v as int));
    out
}

proof fn lemma_digit_char(d: nat)
    requires
        d < 10,
    ensures
        is_digit(digit_char(d), false),
        digit_val(digit_char(d)) == d,
        !is_whitespace(digit_char(d)),
        digit_char(d) != '-',
        digit_char(d) != '+',
{
}

/// The decimal digits of `n` are digits that read back as `n`.
proof fn lemma_decimal_nat(n: nat)
    ensures
        decimal_nat(n).len() > 0,
        all_digits(decimal_nat(n), false),
        digits_num(decimal_nat(n), false) == n,
        !is_whitespace(decimal_nat(n)[0]),
        !is_whitespace(decimal_nat(n).last()),
        decimal_nat(n)[0] != '-',
        decimal_nat(n)[0] != '+',
    decreases n,
{
    if n < 10 {
        lemma_digit_char(n);
        let one = seq![digit_char(n)];
        assert(one.drop_last() =~= Seq::<char>::empty());
        assert(digits_num(one.drop_last(), false) == 0);
        assert(one.last() == digit_char(n));
        assert(radix(false) == 10);
    } else {
        let s = decimal_nat(n / 10);
        lemma_decimal_nat(n / 10);
        lemma_digit_char(n % 10);
        let t = s.push(digit_char(n % 10));
        assert(t.drop_last() =~= s);
        assert(t[0] == s[0]);
        assert forall|i: int| 0 <= i < t.len() implies is_digit(#[trigger] t[i], false) by {
            if i < s.len() {
                assert(t[i] == s[i]);
            }
        }
        assert(n == (n / 10) * 10 + n % 10) by (nonlinear_arith);
        assert(radix(false) == 10);
        assert(t.last() == digit_char(n % 10));
        assert(digits_num(t, false) == digits_num(s, false) * 10 + digit_val(t.last()));
    }
}

/// The text of an integer reads back as that integer: what `ToXml` writes for a value of an
/// integer type, `FromXml` of that type gives back.
pub proof fn lemma_integer_text_roundtrip(n: int, signed: bool, min: int, max: int)
    requires
        min <= n <= max,
        signed || n >= 0,
    ensures
        parse_int_in(decimal(n), signed, min, max) == Some(n),
{
    let s = decimal(n);
    if n < 0 {
        let d = decimal_nat((-n) as nat);
        lemma_decimal_nat((-n) as nat);
        assert(s.drop_first() =~= d);
        assert(s.last() == d.last());
    } else {
        lemma_decimal_nat(n as nat);
    }
    assert(trim_spec(s) == s);
}

/// The text of a boolean reads back as that boolean.
pub proof fn lemma_bool_text_roundtrip(b: bool)
    ensures
        parse_bool(bool_text(b)) == Some(b),
{
    reveal_strlit("true");
    reveal_strlit("false");
    assert("true"@ =~= seq!['t', 'r', 'u', 'e']);
    assert("false"@ =~= seq!['f', 'a', 'l', 's', 'e']);
}

/// A character reads back as itself, unless it is whitespace, which reading trims away.
pub proof fn lemma_char_text_roundtrip(c: char)
    requires
        !is_whitespace(c),
    ensures
        parse_char(seq![c]) == Some(c),
{
    assert(trim_spec(seq![c]) == seq![c]);
}

/// The tokens of an element named `name`, without prefix, that holds the text `text`.
pub open spec fn text_element_tokens(name: Seq<char>, text: Seq<char>) -> Seq<TokenView> {
    seq![
        TokenView::ElementStart(Seq::empty(), name),
        TokenView::ElementOpen,
        TokenView::Text(text),
        TokenView::ElementClose(Seq::empty(), name),
    ]
}

/// What reading the scalar of the root element of the document made of `tokens` gives.
pub open spec fn root_scalar(tokens: Seq<TokenView>) -> Result<Option<Seq<char>>, ErrorView> {
    match start_spec(tokens) {
        Ok((c, root)) => {
            let (c2, d) = de_new_spec(root, c);
            take_str_spec(c2, d).0
        },
        Err(e) => Err(e),
    }
}

/// Text written escaped reads back as itself: the scalar of an element whose text is the
/// escaped `s` is `s`.
pub proof fn lemma_scalar_read_back(name: Seq<char>, s: Seq<char>)
    ensures
        root_scalar(text_element_tokens(name, encode_spec(s))) == Ok::<
            Option<Seq<char>>,
            ErrorView,
        >(Some(s)),
{
    let tokens = text_element_tokens(name, encode_spec(s));
    let c0 = initial_context(tokens);
    let level = LevelView {
        local: name,
        prefix: prefix_of(Seq::empty()),
        default_ns: None,
        prefixes: Map::empty(),
    };
    assert(scan(advance(c0), Some(level)).1 == advance(advance(c0)));
    assert(scan(c0, None) == scan(advance(c0), Some(level)));
    let (c1, root) = start_spec(tokens)->Ok_0;
    assert(c1 == advance(advance(c0)));
    let (c2, d) = de_new_spec(root, c1);
    lemma_decode_encode_roundtrip(s);
    assert(c2.tokens[c2.pos] == TokenView::Text(encode_spec(s)));
    assert(context_next(c2).0 == Some(
        Ok::<NodeView, ErrorView>(NodeView::Text(s, !encode_spec(s).contains('&'))),
    ));
}

/// An integer written as text reads back as itself from an element.
pub proof fn lemma_integer_read_back(name: Seq<char>, n: int, signed: bool, min: int, max: int)
    requires
        min <= n <= max,
        signed || n >= 0,
    ensures
        ({
            let tokens = text_element_tokens(name, encode_spec(decimal(n)));
            match start_spec(tokens) {
                Ok((c, root)) => {
                    let (c2, d) = de_new_spec(root, c);
                    integer_outcome(c2, d, Seq::empty(), Seq::empty(), signed, min, max).0
                        == Ok::<Option<int>, ErrorView>(Some(n))
                },
                Err(_) => false,
            }
        }),
{
    lemma_scalar_read_back(name, decimal(n));
    lemma_integer_text_roundtrip(n, signed, min, max);
}

/// The text written from the serializer state `before` to the later state `after`.
pub open spec fn written(before: SerView, after: SerView) -> Seq<char> {
    after.output.skip(before.output.len() as int)
}

/// What reading a value of `T` into the accumulator `into` for the field `field` can give, from
/// a document that holds only an element named `name` with the text `text`.
pub open spec fn element_read<'xml, T: FromXml<'xml>>(
    name: Seq<char>,
    text: Seq<char>,
    into: T::Accumulator,
    field: &'static str,
    r: Result<(), ErrorView>,
    after: T::Accumulator,
    c2: ContextView,
    d2: DeView,
) -> bool {
    match start_spec(text_element_tokens(name, text)) {
        Ok((c, root)) => {
            let (c1, d) = de_new_spec(root, c);
            T::deserialize_spec(into, field, c1, d, r, after, c2, d2)
        },
        Err(_) => false,
    }
}

/// Writing a scalar's text with no field name, between elements, appends exactly that text.
proof fn lemma_scalar_text_written(before: SerView, text: Seq<char>, r: Result<(), ErrorView>, after: SerView)
    requires
        before.state == State::Element,
        (r, after) == scalar_written(before, text, None),
    ensures
        r is Ok,
        written(before, after) == text,
{
    assert(written(before, after) =~= text);
}

/// The decimal text of an integer has no character that escaping would change.
proof fn lemma_decimal_plain(n: int)
    ensures
        !has_escapable(decimal(n)),
        encode_spec(decimal(n)) == decimal(n),
{
    let m: nat = if n < 0 { (-n) as nat } else { n as nat };
    lemma_decimal_nat(m);
    let s = decimal(n);
    assert(!has_escapable(s)) by {
        if has_escapable(s) {
            let k = choose|k: int| 0 <= k < s.len() && needs_escape(#[trigger] s[k]);
            if n < 0 {
                if k > 0 {
                    assert(s[k] == decimal_nat(m)[k - 1]);
                    assert(is_digit(decimal_nat(m)[k - 1], false));
                }
            } else {
                assert(is_digit(decimal_nat(m)[k], false));
            }
        }
    }
    lemma_encode_plain(s);
}

/// An integer in `min..=max` reads back from an element holding its decimal text, whatever the
/// field and type named in errors.
proof fn lemma_integer_element(
    name: Seq<char>,
    n: int,
    field: Seq<char>,
    label: Seq<char>,
    signed: bool,
    min: int,
    max: int,
)
    requires
        min <= n <= max,
        signed || n >= 0,
    ensures
        match start_spec(text_element_tokens(name, decimal(n))) {
            Ok((c, root)) => {
                let (c1, d) = de_new_spec(root, c);
                integer_outcome(c1, d, field, label, signed, min, max).0 == Ok::<
                    Option<int>,
                    ErrorView,
                >(Some(n))
            },
            Err(_) => false,
        },
{
    lemma_decimal_plain(n);
    lemma_scalar_read_back(name, decimal(n));
    lemma_integer_text_roundtrip(n, signed, min, max);
}

/// A `i8` written and read back is itself: the text that `ToXml` writes for `n`, read by
/// `FromXml` for `i8` from an element that holds it, gives `n`, for every `i8` value.
pub proof fn lemma_i8_write_read(
    n: i8,
    before: SerView,
    r: Result<(), ErrorView>,
    after: SerView,
    name: Seq<char>,
    field: &'static str,
    rr: Result<(), ErrorView>,
    acc: Option<i8>,
    c2: ContextView,
    d2: DeView,
)
    requires
        before.state == State::Element,
        n.serialize_spec(None, before, r, after),
        element_read::<i8>(name, written(before, after), None, field, rr, acc, c2, d2),
    ensures
        r is Ok,
        rr is Ok,
        acc == Some(n),
{
    lemma_scalar_text_written(before, decimal(n as int), r, after);
    lemma_integer_element(name, n as int, field@, "i8"@, true, -128, 127);
}

/// A `i16` written and read back is itself: the text that `ToXml` writes for `n`, read by
/// `FromXml` for `i16` from an element that holds it, gives `n`, for every `i16` value.
pub proof fn lemma_i16_write_read(
    n: i16,
    before: SerView,
    r: Result<(), ErrorView>,
    after: SerView,
    name: Seq<char>,
    field: &'static str,
    rr: Result<(), ErrorView>,
    acc: Option<i16>,
    c2: ContextView,
    d2: DeView,
)
    requires
        before.state == State::Element,
        n.serialize_spec(None, before, r, after),
        element_read::<i16>(name, written(before, after), None, field, rr, acc, c2, d2),
    ensures
        r is Ok,
        rr is Ok,
        acc == Some(n),
{
    lemma_scalar_text_written(before, decimal(n as int), r, after);
    lemma_integer_element(name, n as int, field@, "i16"@, true, -32768, 32767);
}

/// A `i32` written and read back is itself: the text that `ToXml` writes for `n`, read by
/// `FromXml` for `i32` from an element that holds it, gives `n`, for every `i32` value.
pub proof fn lemma_i32_write_read(
    n: i32,
    before: SerView,
    r: Result<(), ErrorView>,
    after: SerView,
    name: Seq<char>,
    field: &'static str,
    rr: Result<(), ErrorView>,
    acc: Option<i32>,
    c2: ContextView,
    d2: DeView,
)
    requires
        before.state == State::Element,
        n.serialize_spec(None, before, r, after),
        element_read::<i32>(name, written(before, after), None, field, rr, acc, c2, d2),
    ensures
        r is Ok,
        rr is Ok,
        acc == Some(n),
{
    lemma_scalar_text_written(before, decimal(n as int), r, after);
    lemma_integer_element(name, n as int, field@, "i32"@, true, -2147483648, 2147483647);
}

/// A `i64` written and read back is itself: the text that `ToXml` writes for `n`, read by
/// `FromXml` for `i64` from an element that holds it, gives `n`, for every `i64` value.
pub proof fn lemma_i64_write_read(
    n: i64,
    before: SerView,
    r: Result<(), ErrorView>,
    after: SerView,
    name: Seq<char>,
    field: &'static str,
    rr: Result<(), ErrorView>,
    acc: Option<i64>,
    c2: ContextView,
    d2: DeView,
)
    requires
        before.state == State::Element,
        n.serialize_spec(None, before, r, after),
        element_read::<i64>(name, written(before, after), None, field, rr, acc, c2, d2),
    ensures
        r is Ok,
        rr is Ok,
        acc == Some(n),
{
    lemma_scalar_text_written(before, decimal(n as int), r, after);
    lemma_integer_element(name, n as int, field@, "i64"@, true, -9223372036854775808, 9223372036854775807);
}

/// A `isize` written and read back is itself: the text that `ToXml` writes for `n`, read by
/// `FromXml` for `isize` from an element that holds it, gives `n`, for every `isize` value.
pub proof fn lemma_isize_write_read(
    n: isize,
    before: SerView,
    r: Result<(), ErrorView>,
    after: SerView,
    name: Seq<char>,
    field: &'static str,
    rr: Result<(), ErrorView>,
    acc: Option<isize>,
    c2: ContextView,
    d2: DeView,
)
    requires
        before.state == State::Element,
        n.serialize_spec(None, before, r, after),
        element_read::<isize>(name, written(before, after), None, field, rr, acc, c2, d2),
    ensures
        r is Ok,
        rr is Ok,
        acc == Some(n),
{
    lemma_scalar_text_written(before, decimal(n as int), r, after);
    lemma_integer_element(name, n as int, field@, "isize"@, true, isize::MIN as int, isize::MAX as int);
}

/// A `u8` written and read back is itself: the text that `ToXml` writes for `n`, read by
/// `FromXml` for `u8` from an element that holds it, gives `n`, for every `u8` value.
pub proof fn lemma_u8_write_read(
    n: u8,
    before: SerView,
    r: Result<(), ErrorView>,
    after: SerView,
    name: Seq<char>,
    field: &'static str,
    rr: Result<(), ErrorView>,
    acc: Option<u8>,
    c2: ContextView,
    d2: DeView,
)
    requires
        before.state == State::Element,
        n.serialize_spec(None, before, r, after),
        element_read::<u8>(name, written(before, after), None, field, rr, acc, c2, d2),
    ensures
        r is Ok,
        rr is Ok,
        acc == Some(n),
{
    lemma_scalar_text_written(before, decimal(n as int), r, after);
    lemma_integer_element(name, n as int, field@, "u8"@, false, 0, 255);
}

/// A `u16` written and read back is itself: the text that `ToXml` writes for `n`, read by
/// `FromXml` for `u16` from an element that holds it, gives `n`, for every `u16` value.
pub proof fn lemma_u16_write_read(
    n: u16,
    before: SerView,
    r: Result<(), ErrorView>,
    after: SerView,
    name: Seq<char>,
    field: &'static str,
    rr: Result<(), ErrorView>,
    acc: Option<u16>,
    c2: ContextView,
    d2: DeView,
)
    requires
        before.state == State::Element,
        n.serialize_spec(None, before, r, after),
        element_read::<u16>(name, written(before, after), None, field, rr, acc, c2, d2),
    ensures
        r is Ok,
        rr is Ok,
        acc == Some(n),
{
    lemma_scalar_text_written(before, decimal(n as int), r, after);
    lemma_integer_element(name, n as int, field@, "u16"@, false, 0, 65535);
}

/// A `u32` written and read back is itself: the text that `ToXml` writes for `n`, read by
/// `FromXml` for `u32` from an element that holds it, gives `n`, for every `u32` value.
pub proof fn lemma_u32_write_read(
    n: u32,
    before: SerView,
    r: Result<(), ErrorView>,
    after: SerView,
    name: Seq<char>,
    field: &'static str,
    rr: Result<(), ErrorView>,
    acc: Option<u32>,
    c2: ContextView,
    d2: DeView,
)
    requires
        before.state == State::Element,
        n.serialize_spec(None, before, r, after),
        element_read::<u32>(name, written(before, after), None, field, rr, acc, c2, d2),
    ensures
        r is Ok,
        rr is Ok,
        acc == Some(n),
{
    lemma_scalar_text_written(before, decimal(n as int), r, after);
    lemma_integer_element(name, n as int, field@, "u32"@, false, 0, 4294967295);
}

/// A `u64` written and read back is itself: the text that `ToXml` writes for `n`, read by
/// `FromXml` for `u64` from an element that holds it, gives `n`, for every `u64` value.
pub proof fn lemma_u64_write_read(
    n: u64,
    before: SerView,
    r: Result<(), ErrorView>,
    after: SerView,
    name: Seq<char>,
    field: &'static str,
    rr: Result<(), ErrorView>,
    acc: Option<u64>,
    c2: ContextView,
    d2: DeView,
)
    requires
        before.state == State::Element,
        n.serialize_spec(None, before, r, after),
        element_read::<u64>(name, written(before, after), None, field, rr, acc, c2, d2),
    ensures
        r is Ok,
        rr is Ok,
        acc == Some(n),
{
    lemma_scalar_text_written(before, decimal(n as int), r, after);
    lemma_integer_element(name, n as int, field@, "u64"@, false, 0, 18446744073709551615);
}

/// A `usize` written and read back is itself: the text that `ToXml` writes for `n`, read by
/// `FromXml` for `usize` from an element that holds it, gives `n`, for every `usize` value.
pub proof fn lemma_usize_write_read(
    n: usize,
    before: SerView,
    r: Result<(), ErrorView>,
    after: SerView,
    name: Seq<char>,
    field: &'static str,
    rr: Result<(), ErrorView>,
    acc: Option<usize>,
    c2: ContextView,
    d2: DeView,
)
    requires
        before.state == State::Element,
        n.serialize_spec(None, before, r, after),
        element_read::<usize>(name, written(before, after), None, field, rr, acc, c2, d2),
    ensures
        r is Ok,
        rr is Ok,
        acc == Some(n),
{
    lemma_scalar_text_written(before, decimal(n as int), r, after);
    lemma_integer_element(name, n as int, field@, "usize"@, false, 0, usize::MAX as int);
}

/// A boolean written and read back is itself.
pub proof fn lemma_bool_write_read(
    b: bool,
    before: SerView,
    r: Result<(), ErrorView>,
    after: SerView,
    name: Seq<char>,
    field: &'static str,
    rr: Result<(), ErrorView>,
    acc: Option<bool>,
    c2: ContextView,
    d2: DeView,
)
    requires
        before.state == State::Element,
        b.serialize_spec(None, before, r, after),
        element_read::<bool>(name, written(before, after), None, field, rr, acc, c2, d2),
    ensures
        r is Ok,
        rr is Ok,
        acc == Some(b),
{
    lemma_scalar_text_written(before, bool_text(b), r, after);
    lemma_bool_text_roundtrip(b);
    let t = bool_text(b);
    assert(!has_escapable(t)) by {
        reveal_strlit("true");
        reveal_strlit("false");
        if has_escapable(t) {
            let k = choose|k: int| 0 <= k < t.len() && needs_escape(#[trigger] t[k]);
        }
    }
    lemma_encode_plain(t);
    lemma_scalar_read_back(name, t);
}

/// A string written and read back is itself: what `ToXml` writes for `s`, escaped, `FromXml`
/// for `String` reads back unescaped.
pub proof fn lemma_string_write_read(
    s: String,
    before: SerView,
    r: Result<(), ErrorView>,
    after: SerView,
    name: Seq<char>,
    field: &'static str,
    rr: Result<(), ErrorView>,
    acc: Option<String>,
    c2: ContextView,
    d2: DeView,
)
    requires
        before.state == State::Element,
        s.serialize_spec(None, before, r, after),
        element_read::<String>(name, written(before, after), None, field, rr, acc, c2, d2),
    ensures
        r is Ok,
        rr is Ok,
        acc matches Some(v) && v@ == s@,
{
    lemma_scalar_text_written(before, encode_spec(s@), r, after);
    lemma_scalar_read_back(name, s@);
}

/// A character written and read back is itself, unless it is whitespace, which reading trims.
pub proof fn lemma_char_write_read(
    ch: char,
    before: SerView,
    r: Result<(), ErrorView>,
    after: SerView,
    name: Seq<char>,
    field: &'static str,
    rr: Result<(), ErrorView>,
    acc: Option<char>,
    c2: ContextView,
    d2: DeView,
)
    requires
        !is_whitespace(ch),
        before.state == State::Element,
        ch.serialize_spec(None, before, r, after),
        element_read::<char>(name, written(before, after), None, field, rr, acc, c2, d2),
    ensures
        r is Ok,
        rr is Ok,
        acc == Some(ch),
{
    lemma_scalar_text_written(before, encode_spec(seq![ch]), r, after);
    lemma_scalar_read_back(name, seq![ch]);
    lemma_char_text_roundtrip(ch);
}

/// Entities name their characters: `&amp;`, `&lt;`, `&gt;`, `&quot;` and `&apos;` stand for
/// `&`, `<`, `>`, `"` and `'`, and the decimal character reference `&#n;` for the character
/// with code point `n`, wherever XML allows that character.
pub proof fn lemma_entity_values(n: nat)
    requires
        is_xml_code(n as int),
    ensures
        entity_value(seq!['a', 'm', 'p']) == Some('&'),
        entity_value(seq!['l', 't']) == Some('<'),
        entity_value(seq!['g', 't']) == Some('>'),
        entity_value(seq!['q', 'u', 'o', 't']) == Some('"'),
        entity_value(seq!['a', 'p', 'o', 's']) == Some('\''),
        entity_value(seq!['#'] + decimal_nat(n)) == Some((n as u32) as char),
{
    let d = decimal_nat(n);
    lemma_decimal_nat(n);
    let name = seq!['#'] + d;
    assert(name.skip(1) =~= d);
    assert(name[1] == d[0]);
    assert(is_digit(d[0], false));
    assert(seq!['a', 'm', 'p'] != seq!['l', 't']);
    assert(seq!['a', 'm', 'p'] != seq!['g', 't']);
    assert(seq!['a', 'p', 'o', 's'] != seq!['a', 'm', 'p']);
    assert(seq!['q', 'u', 'o', 't'] != seq!['a', 'm', 'p']);
    assert(seq!['q', 'u', 'o', 't'] != seq!['a', 'p', 'o', 's']);
    assert(seq!['l', 't'] != seq!['a', 'p', 'o', 's']);
    assert(seq!['g', 't'] != seq!['a', 'p', 'o', 's']);
    assert(seq!['l', 't'] != seq!['g', 't']);
    assert(seq!['q', 'u', 'o', 't'] != seq!['g', 't']);
    assert(seq!['q', 'u', 'o', 't'] != seq!['l', 't']);
    assert(name != seq!['a', 'm', 'p']);
    assert(name != seq!['a', 'p', 'o', 's']);
    assert(name != seq!['g', 't']);
    assert(name != seq!['l', 't']);
    assert(name != seq!['q', 'u', 'o', 't']);
}

impl ToXml for i8 {
    open spec fn serialize_spec(
        &self,
        field: Option<IdView>,
        before: SerView,
        r: Result<(), ErrorView>,
        after: SerView,
    ) -> bool {
        (r, after) == scalar_written(before, decimal(*self as int), field)
    }

    fn serialize(&self, field: Option<Id<'_>>, serializer: &mut Serializer) -> (r: Result<(), Error>)
    {
        let text = signed_text(*self as i64);
        proof {
            lemma_scalar_written_grows(serializer@, text@, opt_id(field));
        }
        display_to_xml(text.as_str(), field, serializer)
    }
}

impl ToXml for i16 {
    open spec fn serialize_spec(
        &self,
        field: Option<IdView>,
        before: SerView,
        r: Result<(), ErrorView>,
        after: SerView,
    ) -> bool {
        (r, after) == scalar_written(before, decimal(*self as int), field)
    }

    fn serialize(&self, field: Option<Id<'_>>, serializer: &mut Serializer) -> (r: Result<(), Error>)
    {
        let text = signed_text(*self as i64);
        proof {
            lemma_scalar_written_grows(serializer@, text@, opt_id(field));
        }
        display_to_xml(text.as_str(), field, serializer)
    }
}

impl ToXml for i32 {
    open spec fn serialize_spec(
        &self,
        field: Option<IdView>,
        before: SerView,
        r: Result<(), ErrorView>,
        after: SerView,
    ) -> bool {
        (r, after) == scalar_written(before, decimal(*self as int), field)
    }

    fn serialize(&self, field: Option<Id<'_>>, serializer: &mut Serializer) -> (r: Result<(), Error>)
    {
        let text = signed_text(*self as i64);
        proof {
            lemma_scalar_written_grows(serializer@, text@, opt_id(field));
        }
        display_to_xml(text.as_str(), field, serializer)
    }
}

impl ToXml for i64 {
    open spec fn serialize_spec(
        &self,
        field: Option<IdView>,
        before: SerView,
        r: Result<(), ErrorView>,
        after: SerView,
    ) -> bool {
        (r, after) == scalar_written(before, decimal(*self as int), field)
    }

    fn serialize(&self, field: Option<Id<'_>>, serializer: &mut Serializer) -> (r: Result<(), Error>)
    {
        let text = signed_text(*self as i64);
        proof {
            lemma_scalar_written_grows(serializer@, text@, opt_id(field));
        }
        display_to_xml(text.as_str(), field, serializer)
    }
}

impl ToXml for isize {
    open spec fn serialize_spec(
        &self,
        field: Option<IdView>,
        before: SerView,
        r: Result<(), ErrorView>,
        after: SerView,
    ) -> bool {
        (r, after) == scalar_written(before, decimal(*self as int), field)
    }

    fn serialize(&self, field: Option<Id<'_>>, serializer: &mut Serializer) -> (r: Result<(), Error>)
    {
        let text = signed_text(*self as i64);
        proof {
            lemma_scalar_written_grows(serializer@, text@, opt_id(field));
        }
        display_to_xml(text.as_str(), field, serializer)
    }
}

impl ToXml for u8 {
    open spec fn serialize_spec(
        &self,
        field: Option<IdView>,
        before: SerView,
        r: Result<(), ErrorView>,
        after: SerView,
    ) -> bool {
        (r, after) == scalar_written(before, decimal(*self as int), field)
    }

    fn serialize(&self, field: Option<Id<'_>>, serializer: &mut Serializer) -> (r: Result<(), Error>)
    {
        let text = unsigned_text(*self as u64);
        proof {
            lemma_scalar_written_grows(serializer@, text@, opt_id(field));
        }
        display_to_xml(text.as_str(), field, serializer)
    }
}

impl ToXml for u16 {
    open spec fn serialize_spec(
        &self,
        field: Option<IdView>,
        before: SerView,
        r: Result<(), ErrorView>,
        after: SerView,
    ) -> bool {
        (r, after) == scalar_written(before, decimal(*self as int), field)
    }

    fn serialize(&self, field: Option<Id<'_>>, serializer: &mut Serializer) -> (r: Result<(), Error>)
    {
        let text = unsigned_text(*self as u64);
        proof {
            lemma_scalar_written_grows(serializer@, text@, opt_id(field));
        }
        display_to_xml(text.as_str(), field, serializer)
    }
}

impl ToXml for u32 {
    open spec fn serialize_spec(
        &self,
        field: Option<IdView>,
        before: SerView,
        r: Result<(), ErrorView>,
        after: SerView,
    ) -> bool {
        (r, after) == scalar_written(before, decimal(*self as int), field)
    }

    fn serialize(&self, field: Option<Id<'_>>, serializer: &mut Serializer) -> (r: Result<(), Error>)
    {
        let text = unsigned_text(*self as u64);
        proof {
            lemma_scalar_written_grows(serializer@, text@, opt_id(field));
        }
        display_to_xml(text.as_str(), field, serializer)
    }
}

impl ToXml for u64 {
    open spec fn serialize_spec(
        &self,
        field: Option<IdView>,
        before: SerView,
        r: Result<(), ErrorView>,
        after: SerView,
    ) -> bool {
        (r, after) == scalar_written(before, decimal(*self as int), field)
    }

    fn serialize(&self, field: Option<Id<'_>>, serializer: &mut Serializer) -> (r: Result<(), Error>)
    {
        let text = unsigned_text(*self as u64);
        proof {
            lemma_scalar_written_grows(serializer@, text@, opt_id(field));
        }
        display_to_xml(text.as_str(), field, serializer)
    }
}

impl ToXml for usize {
    open spec fn serialize_spec(
        &self,
        field: Option<IdView>,
        before: SerView,
        r: Result<(), ErrorView>,
        after: SerView,
    ) -> bool {
        (r, after) == scalar_written(before, decimal(*self as int), field)
    }

    fn serialize(&self, field: Option<Id<'_>>, serializer: &mut Serializer) -> (r: Result<(), Error>)
    {
        let text = unsigned_text(*self as u64);
        proof {
            lemma_scalar_written_grows(serializer@, text@, opt_id(field));
        }
        display_to_xml(text.as_str(), field, serializer)
    }
}

/// The text of a boolean.
pub open spec fn bool_text(b: bool) -> Seq<char> {
    if b {
        "true"@
    } else {
        "false"@
    }
}

impl ToXml for bool {
    open spec fn serialize_spec(
        &self,
        field: Option<IdView>,
        before: SerView,
        r: Result<(), ErrorView>,
        after: SerView,
    ) -> bool {
        (r, after) == scalar_written(before, bool_text(*self), field)
    }

    fn serialize(&self, field: Option<Id<'_>>, serializer: &mut Serializer) -> (r: Result<(), Error>)
    {
        let value = match self {
            true => "true",
            false => "false",
        };
        proof {
            lemma_scalar_written_grows(serializer@, value@, opt_id(field));
        }
        display_to_xml(value, field, serializer)
    }
}

/// Writes the text `value`, escaped, for the field `field`.
fn text_to_xml(value: &str, field: Option<Id<'_>>, serializer: &mut Serializer) -> (r: Result<
    (),
    Error,
>)
    ensures
        (unit_result_view(r), final(serializer)@) == scalar_written(
            old(serializer)@,
            encode_spec(value@),
            opt_id(field),
        ),
{
    let encoded = match encode(value) {
        Ok(encoded) => encoded,
        Err(e) => return Err(e),
    };
    display_to_xml(cow_str(&encoded), field, serializer)
}

impl ToXml for String {
    open spec fn serialize_spec(
        &self,
        field: Option<IdView>,
        before: SerView,
        r: Result<(), ErrorView>,
        after: SerView,
    ) -> bool {
        (r, after) == scalar_written(before, encode_spec(self@), field)
    }

    fn serialize(&self, field: Option<Id<'_>>, serializer: &mut Serializer) -> (r: Result<(), Error>)
    {
        proof {
            lemma_scalar_written_grows(serializer@, encode_spec(self@), opt_id(field));
        }
        text_to_xml(self.as_str(), field, serializer)
    }
}

impl ToXml for str {
    open spec fn serialize_spec(
        &self,
        field: Option<IdView>,
        before: SerView,
        r: Result<(), ErrorView>,
        after: SerView,
    ) -> bool {
        (r, after) == scalar_written(before, encode_spec(self@), field)
    }

    fn serialize(&self, field: Option<Id<'_>>, serializer: &mut Serializer) -> (r: Result<(), Error>)
    {
        proof {
            lemma_scalar_written_grows(serializer@, encode_spec(self@), opt_id(field));
        }
        text_to_xml(self, field, serializer)
    }
}

impl<'a> ToXml for Cow<'a, str> {
    open spec fn serialize_spec(
        &self,
        field: Option<IdView>,
        before: SerView,
        r: Result<(), ErrorView>,
        after: SerView,
    ) -> bool {
        (r, after) == scalar_written(before, encode_spec(self@), field)
    }

    fn serialize(&self, field: Option<Id<'_>>, serializer: &mut Serializer) -> (r: Result<(), Error>)
    {
        proof {
            lemma_scalar_written_grows(serializer@, encode_spec(self@), opt_id(field));
        }
        text_to_xml(cow_str(self), field, serializer)
    }
}

impl ToXml for char {
    open spec fn serialize_spec(
        &self,
        field: Option<IdView>,
        before: SerView,
        r: Result<(), ErrorView>,
        after: SerView,
    ) -> bool {
        (r, after) == scalar_written(before, encode_spec(seq![*self]), field)
    }

    fn serialize(&self, field: Option<Id<'_>>, serializer: &mut Serializer) -> (r: Result<(), Error>)
    {
        let mut text = String::new();
        push_char(&mut text, *self);
        assert(text@ =~= seq![*self]);
        proof {
            lemma_scalar_written_grows(serializer@, encode_spec(seq![*self]), opt_id(field));
        }
        text_to_xml(text.as_str(), field, serializer)
    }
}

impl<T: ToXml> ToXml for Option<T> {
    open spec fn serialize_spec(
        &self,
        field: Option<IdView>,
        before: SerView,
        r: Result<(), ErrorView>,
        after: SerView,
    ) -> bool {
        match self {
            Some(v) => v.serialize_spec(field, before, r, after),
            None => r == Ok::<(), ErrorView>(()) && after == before,
        }
    }

    fn serialize(&self, field: Option<Id<'_>>, serializer: &mut Serializer) -> (r: Result<(), Error>)
    {
        match self {
            Some(v) => v.serialize(field, serializer),
            None => Ok(()),
        }
    }

    fn present(&self) -> (r: bool)
        ensures
            r == self is Some,
    {
        self.is_some()
    }
}

impl<T: ToXml + ?Sized> ToXml for Box<T> {
    open spec fn serialize_spec(
        &self,
        field: Option<IdView>,
        before: SerView,
        r: Result<(), ErrorView>,
        after: SerView,
    ) -> bool {
        (**self).serialize_spec(field, before, r, after)
    }

    fn serialize(&self, field: Option<Id<'_>>, serializer: &mut Serializer) -> (r: Result<(), Error>)
    {
        (**self).serialize(field, serializer)
    }
}

/// Whether the items `items` are written one after another from the states `states`: each
/// item before the last state takes its state to the next one and succeeds.
pub open spec fn items_written<T: ToXml>(items: Seq<T>, field: Option<IdView>, states: Seq<SerView>) -> bool {
    forall|j: int|
        0 <= j < states.len() - 1 ==> #[trigger] items[j].serialize_spec(
            field,
            states[j],
            Ok(()),
            states[j + 1],
        )
}

/// Whether serializing the items `items` in turn, for the field `field`, from the state
/// `before`, can end with the result `r` and the state `after`: each item is written after the
/// ones before it, until one fails.
pub open spec fn seq_written<T: ToXml>(
    items: Seq<T>,
    field: Option<IdView>,
    before: SerView,
    r: Result<(), ErrorView>,
    after: SerView,
) -> bool {
    exists|states: Seq<SerView>|
        #[trigger] items_written(items, field, states) && 1 <= states.len() <= items.len() + 1
            && states[0] == before && if states.len() == items.len() + 1 {
            r == Ok::<(), ErrorView>(()) && after == states.last()
        } else {
            r is Err && items[states.len() - 1].serialize_spec(field, states.last(), r, after)
        }
}

impl<T: ToXml> ToXml for [T] {
    open spec fn serialize_spec(
        &self,
        field: Option<IdView>,
        before: SerView,
        r: Result<(), ErrorView>,
        after: SerView,
    ) -> bool {
        seq_written(self@, field, before, r, after)
    }

    /// Writes each item in turn, for the same field; stops at the first error.
    fn serialize(&self, field: Option<Id<'_>>, serializer: &mut Serializer) -> (r: Result<(), Error>)
    {
        let mut i: usize = 0;
        let ghost mut states: Seq<SerView> = seq![serializer@];
        while i < self.len()
            invariant
                i <= self@.len(),
                old(serializer)@.output.is_prefix_of(serializer@.output),
                states.len() == i + 1,
                states[0] == old(serializer)@,
                states.last() == serializer@,
                items_written(self@, opt_id(field), states),
            decreases self@.len() - i,
        {
            let ghost mid = serializer@;
            match self[i].serialize(field, serializer) {
                Ok(()) => {},
                Err(e) => {
                    proof {
                        lemma_prefix_transitive(old(serializer)@.output, mid.output, serializer@.output);
                        assert(seq_written(self@, opt_id(field), old(serializer)@, Err(e@), serializer@));
                    }
                    return Err(e);
                },
            }
            proof {
                lemma_prefix_transitive(old(serializer)@.output, mid.output, serializer@.output);
                let ghost prev = states;
                states = states.push(serializer@);
                assert forall|j: int| 0 <= j < states.len() - 1 implies #[trigger] self@[j].serialize_spec(
                    opt_id(field),
                    states[j],
                    Ok(()),
                    states[j + 1],
                ) by {
                    if j < prev.len() - 1 {
                        assert(states[j] == prev[j] && states[j + 1] == prev[j + 1]);
                    }
                }
            }
            i += 1;
        }
        assert(seq_written(self@, opt_id(field), old(serializer)@, Ok(()), serializer@));
        Ok(())
    }
}

impl<T: ToXml> ToXml for Vec<T> {
    open spec fn serialize_spec(
        &self,
        field: Option<IdView>,
        before: SerView,
        r: Result<(), ErrorView>,
        after: SerView,
    ) -> bool {
        seq_written(self@, field, before, r, after)
    }

    fn serialize(&self, field: Option<Id<'_>>, serializer: &mut Serializer) -> (r: Result<(), Error>)
    {
        self.as_slice().serialize(field, serializer)
    }
}

impl<'a, T: ToXml> ToXml for Cow<'a, [T]> where [T]: ToOwned<Owned = Vec<T>> {
    open spec fn serialize_spec(
        &self,
        field: Option<IdView>,
        before: SerView,
        r: Result<(), ErrorView>,
        after: SerView,
    ) -> bool {
        match self {
            Cow::Borrowed(items) => seq_written(items@, field, before, r, after),
            Cow::Owned(items) => seq_written(items@, field, before, r, after),
        }
    }

    fn serialize(&self, field: Option<Id<'_>>, serializer: &mut Serializer) -> (r: Result<(), Error>)
    {
        match self {
            Cow::Borrowed(items) => items.serialize(field, serializer),
            Cow::Owned(items) => items.as_slice().serialize(field, serializer),
        }
    }
}

proof fn lemma_prefix_transitive(a: Seq<char>, b: Seq<char>, c: Seq<char>)
    requires
        a.is_prefix_of(b),
        b.is_prefix_of(c),
    ensures
        a.is_prefix_of(c),
{
    assert forall|k: int| 0 <= k < a.len() implies a[k] == c[k] by {
        assert(a[k] == b[k]);
    }
}

} // verus!
