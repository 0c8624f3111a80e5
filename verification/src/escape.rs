//! Character data escaping: the five predefined XML entities and numeric character references.
//!
//! `decode` turns the text of an attribute value or of character data into the characters it
//! stands for; `encode` escapes the characters that may not appear literally in either.

use std::borrow::Cow;
use vstd::prelude::*;
use vstd::std_specs::iter::IteratorSpec;

use crate::strings::{char_from_u32, push_char};
use crate::Error;

verus! {

/// Code points of the XML `Char` production.
pub open spec fn is_xml_code(v: int) -> bool {
    v == 0x9 || v == 0xA || v == 0xD || (0x20 <= v <= 0xD7FF) || (0xE000 <= v <= 0xFFFD) || (
    0x10000 <= v <= 0x10FFFF)
}

/// A character that XML documents may contain.
pub open spec fn is_xml_char(c: char) -> bool {
    is_xml_code(c as int)
}

/// Number of bytes that the UTF-8 encoding of `c` takes.
pub open spec fn utf8_width(c: char) -> nat {
    if (c as u32) < 0x80 {
        1
    } else if (c as u32) < 0x800 {
        2
    } else if (c as u32) < 0x10000 {
        3
    } else {
        4
    }
}

/// Number of bytes that the UTF-8 encoding of `s` takes.
pub open spec fn utf8_len(s: Seq<char>) -> nat
    decreases s.len(),
{
    if s.len() == 0 {
        0
    } else {
        utf8_len(s.drop_last()) + utf8_width(s.last())
    }
}

/// An entity body (the text between `&` and `;`) holds at most this many bytes.
pub open spec fn max_entity_bytes() -> nat {
    6
}

/// Whether `c` is a digit in base 16 (`hex`) or base 10.
pub open spec fn is_digit(c: char, hex: bool) -> bool {
    ('0' <= c <= '9') || (hex && (('a' <= c <= 'f') || ('A' <= c <= 'F')))
}

/// The value of the digit `c`.
pub open spec fn digit_val(c: char) -> nat {
    if '0' <= c <= '9' {
        (c as u32 - '0' as u32) as nat
    } else if 'a' <= c <= 'f' {
        (c as u32 - 'a' as u32 + 10) as nat
    } else {
        (c as u32 - 'A' as u32 + 10) as nat
    }
}

pub open spec fn radix(hex: bool) -> nat {
    if hex {
        16
    } else {
        10
    }
}

/// The number that the digits `s` write, most significant first.
pub open spec fn digits_num(s: Seq<char>, hex: bool) -> nat
    decreases s.len(),
{
    if s.len() == 0 {
        0
    } else {
        digits_num(s.drop_last(), hex) * radix(hex) + digit_val(s.last())
    }
}

pub open spec fn all_digits(s: Seq<char>, hex: bool) -> bool {
    forall|i: int| 0 <= i < s.len() ==> is_digit(#[trigger] s[i], hex)
}

/// An unsigned number as std's integer parsing reads it: an optional `+`, then at least one
/// digit.
pub open spec fn parse_number(s: Seq<char>, hex: bool) -> Option<nat> {
    let d = if s.len() > 0 && s[0] == '+' {
        s.drop_first()
    } else {
        s
    };
    if d.len() > 0 && all_digits(d, hex) {
        Some(digits_num(d, hex))
    } else {
        None
    }
}

/// The character that a numeric character reference names, if it is one XML allows.
pub open spec fn char_ref(v: Option<nat>) -> Option<char> {
    match v {
        Some(n) => if is_xml_code(n as int) {
            Some((n as u32) as char)
        } else {
            None
        },
        None => None,
    }
}

/// The character that the entity body `name` stands for.
pub open spec fn entity_value(name: Seq<char>) -> Option<char> {
    if name == seq!['a', 'm', 'p'] {
        Some('&')
    } else if name == seq!['a', 'p', 'o', 's'] {
        Some('\'')
    } else if name == seq!['g', 't'] {
        Some('>')
    } else if name == seq!['l', 't'] {
        Some('<')
    } else if name == seq!['q', 'u', 'o', 't'] {
        Some('"')
    } else if name.len() >= 2 && name[0] == '#' && (name[1] == 'x' || name[1] == 'X') {
        char_ref(parse_number(name.skip(2), true))
    } else if name.len() >= 1 && name[0] == '#' {
        char_ref(parse_number(name.skip(1), false))
    } else {
        None
    }
}

/// The text reported for an entity body that grows past its byte limit when `c` is read: the
/// body, then `c`, or U+FFFD where the limit cuts `c` in the middle of its encoding.
pub open spec fn overflow_message(name: Seq<char>, c: char) -> Seq<char> {
    if utf8_len(name) + utf8_width(c) == max_entity_bytes() + 1 {
        name.push(c)
    } else {
        name.push('\u{FFFD}')
    }
}

/// Decoding of `input` after `out` was produced, inside the entity body `entity` if any.
/// `Err` holds the text of the entity that could not be decoded.
pub open spec fn decode_from(input: Seq<char>, out: Seq<char>, entity: Option<Seq<char>>) -> Result<
    Seq<char>,
    Seq<char>,
>
    decreases input.len(),
{
    if input.len() == 0 {
        match entity {
            Some(name) => Err(name),
            None => Ok(out),
        }
    } else {
        let c = input[0];
        let rest = input.drop_first();
        match entity {
            None => if c == '&' {
                decode_from(rest, out, Some(Seq::empty()))
            } else {
                decode_from(rest, out.push(c), None)
            },
            Some(name) => if c == ';' {
                match entity_value(name) {
                    Some(d) => decode_from(rest, out.push(d), None),
                    None => Err(name),
                }
            } else if utf8_len(name) + utf8_width(c) > max_entity_bytes() {
                Err(overflow_message(name, c))
            } else {
                decode_from(rest, out, Some(name.push(c)))
            },
        }
    }
}

/// The characters that the text `input` stands for, or the entity that could not be decoded.
pub open spec fn decode_spec(input: Seq<char>) -> Result<Seq<char>, Seq<char>> {
    decode_from(input, Seq::empty(), None)
}

/// Characters that `encode` replaces by an entity.
pub open spec fn needs_escape(c: char) -> bool {
    c == '&' || c == '"' || c == '<' || c == '>' || c == '\''
}

/// The text that stands for `c` in encoded output.
pub open spec fn escape_char(c: char) -> Seq<char> {
    if c == '&' {
        seq!['&', 'a', 'm', 'p', ';']
    } else if c == '"' {
        seq!['&', 'q', 'u', 'o', 't', ';']
    } else if c == '<' {
        seq!['&', 'l', 't', ';']
    } else if c == '>' {
        seq!['&', 'g', 't', ';']
    } else if c == '\'' {
        seq!['&', 'a', 'p', 'o', 's', ';']
    } else {
        seq![c]
    }
}

/// `s` with every character that needs it replaced by its entity.
pub open spec fn encode_spec(s: Seq<char>) -> Seq<char>
    decreases s.len(),
{
    if s.len() == 0 {
        Seq::empty()
    } else {
        encode_spec(s.drop_last()) + escape_char(s.last())
    }
}

pub open spec fn has_escapable(s: Seq<char>) -> bool {
    exists|i: int| 0 <= i < s.len() && needs_escape(#[trigger] s[i])
}

/// Valid character ranges per the XML `Char` production.
pub fn valid_xml_character(c: &char) -> (r: bool)
    ensures
        r == is_xml_char(*c),
{
    let v = *c as u32;
    v == 0x9 || v == 0xA || v == 0xD || (0x20 <= v && v <= 0xD7FF) || (0xE000 <= v && v <= 0xFFFD)
        || (0x10000 <= v && v <= 0x10FFFF)
}

fn char_utf8_width(c: char) -> (w: usize)
    ensures
        w == utf8_width(c),
{
    let v = c as u32;
    if v < 0x80 {
        1
    } else if v < 0x800 {
        2
    } else if v < 0x10000 {
        3
    } else {
        4
    }
}

fn chars_to_string(chars: &Vec<char>) -> (s: String)
    ensures
        s@ == chars@,
{
    let mut s = String::new();
    let mut i: usize = 0;
    while i < chars.len()
        invariant
            i <= chars.len(),
            s@ == chars@.take(i as int),
        decreases chars.len() - i,
    {
        push_char(&mut s, chars[i]);
        i += 1;
        assert(chars@.take(i as int) == chars@.take(i - 1).push(chars@[i - 1]));
    }
    assert(chars@.take(i as int) == chars@);
    s
}

fn is_digit_exec(c: char, hex: bool) -> (r: bool)
    ensures
        r == is_digit(c, hex),
{
    ('0' <= c && c <= '9') || (hex && (('a' <= c && c <= 'f') || ('A' <= c && c <= 'F')))
}

fn digit_val_exec(c: char) -> (r: u32)
    requires
        is_digit(c, true),
    ensures
        r == digit_val(c),
        r < 16,
{
    if '0' <= c && c <= '9' {
        c as u32 - '0' as u32
    } else if 'a' <= c && c <= 'f' {
        c as u32 - 'a' as u32 + 10
    } else {
        c as u32 - 'A' as u32 + 10
    }
}

/// The digits of a character reference stand for their usual values: `0` to `9` for 0 to 9,
/// and `a` to `f` as well as `A` to `F` for 10 to 15, the case of a hexadecimal digit making no
/// difference.
pub proof fn lemma_digit_values()
    ensures
        digit_val('0') == 0 && digit_val('1') == 1 && digit_val('2') == 2 && digit_val('3') == 3
            && digit_val('4') == 4 && digit_val('5') == 5 && digit_val('6') == 6 && digit_val('7')
            == 7 && digit_val('8') == 8 && digit_val('9') == 9,
        digit_val('a') == 10 && digit_val('b') == 11 && digit_val('c') == 12 && digit_val('d') == 13
            && digit_val('e') == 14 && digit_val('f') == 15,
        digit_val('A') == 10 && digit_val('B') == 11 && digit_val('C') == 12 && digit_val('D') == 13
            && digit_val('E') == 14 && digit_val('F') == 15,
        forall|c: char| is_digit(c, true) ==> #[trigger] digit_val(c) < 16,
        forall|c: char| is_digit(c, false) ==> #[trigger] digit_val(c) < 10,
{
}

/// The lower-case form of a hexadecimal letter; any other character is kept.
pub open spec fn hex_lower(c: char) -> char {
    if 'A' <= c <= 'F' {
        ((c as u32) + 32) as char
    } else {
        c
    }
}

/// A hexadecimal number has the same value whatever the case of its letters: the digits `s`
/// and the same digits with their letters lower-cased stand for the same number.
pub proof fn lemma_hex_case_insensitive(s: Seq<char>)
    requires
        all_digits(s, true),
    ensures
        digits_num(s, true) == digits_num(s.map_values(|c: char| hex_lower(c)), true),
    decreases s.len(),
{
    let t = s.map_values(|c: char| hex_lower(c));
    if s.len() > 0 {
        let init = s.drop_last();
        assert(all_digits(init, true)) by {
            assert forall|i: int| 0 <= i < init.len() implies is_digit(#[trigger] init[i], true) by {
                assert(init[i] == s[i]);
            }
        }
        lemma_hex_case_insensitive(init);
        assert(t.drop_last() =~= init.map_values(|c: char| hex_lower(c)));
        let c = s.last();
        assert(is_digit(c, true)) by {
            assert(s[s.len() - 1] == c);
        }
        assert(t.last() == hex_lower(c));
        assert(digit_val(hex_lower(c)) == digit_val(c)) by {
            if 'A' <= c <= 'F' {
                assert((c as u32) + 32 == ((c as u32) + 32) as char as u32);
            }
        }
    }
}

pub open spec fn pow16(n: nat) -> nat
    decreases n,
{
    if n == 0 {
        1
    } else {
        16 * pow16((n - 1) as nat)
    }
}

/// Reads an unsigned number from `name[start..]`, which is at most six characters long.
fn parse_number_exec(name: &Vec<char>, start: usize, hex: bool) -> (r: Option<u32>)
    requires
        start <= name.len() <= 6,
    ensures
        r is Some <==> parse_number(name@.skip(start as int), hex) is Some,
        r matches Some(v) ==> parse_number(name@.skip(start as int), hex) == Some(v as nat),
{
    let ghost s = name@.skip(start as int);
    let mut i = start;
    if i < name.len() && name[i] == '+' {
        i += 1;
    }
    let ghost d = name@.skip(i as int);
    assert(d == (if s.len() > 0 && s[0] == '+' {
        s.drop_first()
    } else {
        s
    }));
    if i >= name.len() {
        return None;
    }
    let first = i;
    let mut val: u32 = 0;
    let r: u32 = if hex {
        16
    } else {
        10
    };
    while i < name.len()
        invariant
            first <= i <= name.len() <= 6,
            d == name@.skip(first as int),
            d.len() > 0,
            parse_number(name@.skip(start as int), hex) == (if all_digits(d, hex) {
                Some(digits_num(d, hex))
            } else {
                None
            }),
            r == radix(hex),
            all_digits(name@.subrange(first as int, i as int), hex),
            val == digits_num(name@.subrange(first as int, i as int), hex),
            val < pow16((i - first) as nat),
        decreases name.len() - i,
    {
        let c = name[i];
        if !is_digit_exec(c, hex) {
            assert(d[i - first] == c);
            assert(!is_digit(d[i - first], hex));
            return None;
        }
        let dv = digit_val_exec(c);
        proof {
            let p = name@.subrange(first as int, i + 1);
            assert(p.drop_last() == name@.subrange(first as int, i as int));
            assert(p.last() == c);
            assert(dv < r) by {
                if !hex {
                    assert('0' <= c <= '9');
                }
            }
            let k = (i - first) as nat;
            assert(pow16(k + 1) == 16 * pow16(k));
            assert(val * r + dv < 16 * pow16(k)) by (nonlinear_arith)
                requires
                    val < pow16(k),
                    r <= 16,
                    dv < r,
            ;
            assert(k < 6);
            assert(pow16(5) == 1048576) by {
                reveal_with_fuel(pow16, 6);
            }
            assert(pow16(k) <= pow16(5)) by {
                lemma_pow16_mono(k, 5);
            }
        }
        val = val * r + dv;
        i += 1;
    }
    assert(name@.subrange(first as int, i as int) == d);
    Some(val)
}

proof fn lemma_pow16_mono(a: nat, b: nat)
    requires
        a <= b,
    ensures
        pow16(a) <= pow16(b),
    decreases b,
{
    if a < b {
        lemma_pow16_mono(a, (b - 1) as nat);
    }
}

fn char_ref_exec(v: Option<u32>) -> (r: Option<char>)
    ensures
        r == char_ref(match v {
            Some(n) => Some(n as nat),
            None => None,
        }),
{
    match v {
        Some(n) => {
            if n == 0x9 || n == 0xA || n == 0xD || (0x20 <= n && n <= 0xD7FF) || (0xE000 <= n && n
                <= 0xFFFD) || (0x10000 <= n && n <= 0x10FFFF) {
                let c = char_from_u32(n).unwrap();
                proof {
                    vstd::utf8::char_u32_cast(c, n);
                }
                Some(c)
            } else {
                None
            }
        },
        None => None,
    }
}

fn name_is(name: &Vec<char>, expected: &[char]) -> (r: bool)
    ensures
        r == (name@ == expected@),
{
    if name.len() != expected.len() {
        return false;
    }
    let mut i: usize = 0;
    while i < name.len()
        invariant
            i <= name.len() == expected.len(),
            forall|j: int| 0 <= j < i ==> name@[j] == expected@[j],
        decreases name.len() - i,
    {
        if name[i] != expected[i] {
            return false;
        }
        i += 1;
    }
    assert(name@ == expected@);
    true
}

/// The character an entity body stands for.
fn entity_value_exec(name: &Vec<char>) -> (r: Option<char>)
    requires
        name.len() <= 6,
    ensures
        r == entity_value(name@),
{
    if name_is(name, &['a', 'm', 'p']) {
        Some('&')
    } else if name_is(name, &['a', 'p', 'o', 's']) {
        Some('\'')
    } else if name_is(name, &['g', 't']) {
        Some('>')
    } else if name_is(name, &['l', 't']) {
        Some('<')
    } else if name_is(name, &['q', 'u', 'o', 't']) {
        Some('"')
    } else if name.len() >= 2 && name[0] == '#' && (name[1] == 'x' || name[1] == 'X') {
        let n = parse_number_exec(name, 2, true);
        char_ref_exec(n)
    } else if name.len() >= 1 && name[0] == '#' {
        let n = parse_number_exec(name, 1, false);
        char_ref_exec(n)
    } else {
        None
    }
}

proof fn lemma_utf8_len_push(s: Seq<char>, c: char)
    ensures
        utf8_len(s.push(c)) == utf8_len(s) + utf8_width(c),
{
    assert(s.push(c).drop_last() == s);
}

proof fn lemma_utf8_len_bounds(s: Seq<char>)
    ensures
        utf8_len(s) >= s.len(),
    decreases s.len(),
{
    if s.len() > 0 {
        lemma_utf8_len_bounds(s.drop_last());
    }
}

/// Replaces the predefined entities and numeric character references in `input` by the
/// characters they stand for.
///
/// The result borrows `input` when it holds no `&`.
pub fn decode<'a>(input: &'a str) -> (r: Result<Cow<'a, str>, Error>)
    ensures
        match decode_spec(input@) {
            Ok(out) => r matches Ok(cow) && cow@ == out && (cow matches Cow::Borrowed(_)
                <==> !input@.contains('&')),
            Err(msg) => r matches Err(Error::InvalidEntity(m)) && m@ == msg,
        },
{
    let mut result = String::new();
    let mut in_entity = false;
    let mut name: Vec<char> = Vec::new();
    let mut name_bytes: usize = 0;
    let mut amp_seen = false;
    let ghost all = input@;
    let ghost mut i: int = 0;
    let mut it = input.chars();
    proof {
        broadcast use vstd::string::group_string_axioms;

        assert(all.skip(0) == all);
        assert(all.take(0) == Seq::<char>::empty());
    }
    loop
        invariant
            all == input@,
            0 <= i <= all.len(),
            it.remaining() == all.skip(i),
            decode_spec(all) == decode_from(
                all.skip(i),
                result@,
                if in_entity {
                    Some(name@)
                } else {
                    None
                },
            ),
            name_bytes == utf8_len(name@),
            name_bytes <= 6,
            amp_seen == all.take(i).contains('&'),
            !amp_seen ==> result@ == all.take(i) && !in_entity,
        ensures
            i == all.len(),
            decode_spec(all) == decode_from(
                Seq::empty(),
                result@,
                if in_entity {
                    Some(name@)
                } else {
                    None
                },
            ),
            amp_seen == all.contains('&'),
            !amp_seen ==> result@ == all && !in_entity,
        decreases all.len() - i,
    {
        let next = it.next();
        proof {
            broadcast use vstd::string::group_string_axioms;

        }
        match next {
            None => {
                assert(all.take(i) == all);
                break ;
            },
            Some(c) => {
                let ghost rest = all.skip(i);
                assert(rest[0] == c);
                assert(rest.drop_first() == all.skip(i + 1));
                assert(all.take(i + 1) == all.take(i).push(c));
                proof {
                    lemma_contains_push(all.take(i), c, '&');
                }
                if !in_entity {
                    if c == '&' {
                        in_entity = true;
                        name = Vec::new();
                        name_bytes = 0;
                        amp_seen = true;
                    } else {
                        push_char(&mut result, c);
                    }
                } else if c == ';' {
                    proof {
                        lemma_utf8_len_bounds(name@);
                    }
                    match entity_value_exec(&name) {
                        Some(d) => {
                            push_char(&mut result, d);
                            in_entity = false;
                        },
                        None => {
                            return Err(Error::InvalidEntity(chars_to_string(&name)));
                        },
                    }
                } else {
                    let w = char_utf8_width(c);
                    if name_bytes + w > 6 {
                        let mut msg = chars_to_string(&name);
                        if name_bytes + w == 7 {
                            push_char(&mut msg, c);
                        } else {
                            push_char(&mut msg, '\u{FFFD}');
                        }
                        assert(msg@ == overflow_message(name@, c));
                        assert(decode_spec(all) == Err::<Seq<char>, Seq<char>>(overflow_message(name@, c)));
                        return Err(Error::InvalidEntity(msg));
                    }
                    proof {
                        lemma_utf8_len_push(name@, c);
                    }
                    name.push(c);
                    name_bytes = name_bytes + w;
                }
                proof {
                    i = i + 1;
                }
            },
        }
    }
    if in_entity {
        return Err(Error::InvalidEntity(chars_to_string(&name)));
    }
    if !amp_seen {
        Ok(Cow::Borrowed(input))
    } else {
        Ok(Cow::Owned(result))
    }
}

/// Escapes the characters `&`, `"`, `<`, `>` and `'` of `input` as entities.
///
/// The result borrows `input` when none of them occurs.
pub fn encode<'a>(input: &'a str) -> (r: Result<Cow<'a, str>, Error>)
    ensures
        r matches Ok(cow) && cow@ == encode_spec(input@) && (cow matches Cow::Borrowed(_)
            <==> !has_escapable(input@)),
{
    let mut result = String::new();
    let mut changed = false;
    let ghost all = input@;
    let ghost mut i: int = 0;
    let mut it = input.chars();
    proof {
        broadcast use vstd::string::group_string_axioms;

        assert(all.skip(0) == all);
        assert(all.take(0) == Seq::<char>::empty());
    }
    loop
        invariant
            all == input@,
            0 <= i <= all.len(),
            it.remaining() == all.skip(i),
            result@ == encode_spec(all.take(i)),
            changed == has_escapable(all.take(i)),
        ensures
            result@ == encode_spec(all),
            changed == has_escapable(all),
        decreases all.len() - i,
    {
        let next = it.next();
        proof {
            broadcast use vstd::string::group_string_axioms;

        }
        match next {
            None => {
                assert(all.take(i) == all);
                break ;
            },
            Some(c) => {
                let ghost rest = all.skip(i);
                assert(rest[0] == c);
                assert(all.take(i + 1) == all.take(i).push(c));
                assert(all.take(i + 1).drop_last() == all.take(i));
                proof {
                    lemma_has_escapable_push(all.take(i), c);
                }
                if c == '&' {
                    proof {
                        reveal_strlit("&amp;");
                    }
                    result.append("&amp;");
                    changed = true;
                } else if c == '"' {
                    proof {
                        reveal_strlit("&quot;");
                    }
                    result.append("&quot;");
                    changed = true;
                } else if c == '<' {
                    proof {
                        reveal_strlit("&lt;");
                    }
                    result.append("&lt;");
                    changed = true;
                } else if c == '>' {
                    proof {
                        reveal_strlit("&gt;");
                    }
                    result.append("&gt;");
                    changed = true;
                } else if c == '\'' {
                    proof {
                        reveal_strlit("&apos;");
                    }
                    result.append("&apos;");
                    changed = true;
                } else {
                    push_char(&mut result, c);
                }
                proof {
                    i = i + 1;
                }
            },
        }
    }
    if !changed {
        proof {
            lemma_encode_plain(all);
        }
        Ok(Cow::Borrowed(input))
    } else {
        Ok(Cow::Owned(result))
    }
}

proof fn lemma_contains_push(s: Seq<char>, c: char, x: char)
    ensures
        s.push(c).contains(x) == (s.contains(x) || c == x),
{
    if s.contains(x) {
        let k = choose|k: int| 0 <= k < s.len() && #[trigger] s[k] == x;
        assert(s.push(c)[k] == x);
    }
    if c == x {
        assert(s.push(c)[s.len() as int] == x);
    }
    if s.push(c).contains(x) {
        let k = choose|k: int| 0 <= k < s.push(c).len() && #[trigger] s.push(c)[k] == x;
        if k < s.len() {
            assert(s[k] == x);
        }
    }
}

proof fn lemma_has_escapable_push(s: Seq<char>, c: char)
    ensures
        has_escapable(s.push(c)) == (has_escapable(s) || needs_escape(c)),
{
    if has_escapable(s) {
        let k = choose|k: int| 0 <= k < s.len() && needs_escape(#[trigger] s[k]);
        assert(s.push(c)[k] == s[k]);
    }
    if needs_escape(c) {
        assert(s.push(c)[s.len() as int] == c);
    }
    if has_escapable(s.push(c)) {
        let k = choose|k: int| 0 <= k < s.push(c).len() && needs_escape(#[trigger] s.push(c)[k]);
        if k < s.len() {
            assert(s[k] == s.push(c)[k]);
        }
    }
}

/// Encoding leaves text without escapable characters unchanged.
pub proof fn lemma_encode_plain(s: Seq<char>)
    requires
        !has_escapable(s),
    ensures
        encode_spec(s) == s,
    decreases s.len(),
{
    if s.len() > 0 {
        let t = s.drop_last();
        assert(!has_escapable(t)) by {
            if has_escapable(t) {
                let k = choose|k: int| 0 <= k < t.len() && needs_escape(#[trigger] t[k]);
                assert(s[k] == t[k]);
            }
        }
        assert(!needs_escape(s.last())) by {
            assert(s[s.len() - 1] == s.last());
        }
        lemma_encode_plain(t);
        assert(t.push(s.last()) == s);
    }
}


/// One step of decoding.
proof fn lemma_decode_step(c: char, rest: Seq<char>, out: Seq<char>, entity: Option<Seq<char>>)
    ensures
        decode_from(seq![c] + rest, out, entity) == (match entity {
            None => if c == '&' {
                decode_from(rest, out, Some(Seq::empty()))
            } else {
                decode_from(rest, out.push(c), None)
            },
            Some(name) => if c == ';' {
                match entity_value(name) {
                    Some(d) => decode_from(rest, out.push(d), None),
                    None => Err(name),
                }
            } else if utf8_len(name) + utf8_width(c) > max_entity_bytes() {
                Err(overflow_message(name, c))
            } else {
                decode_from(rest, out, Some(name.push(c)))
            },
        }),
{
    assert((seq![c] + rest).drop_first() == rest);
    assert((seq![c] + rest)[0] == c);
}

/// Decoding the entity `&name;` followed by `rest`, where `name` is ASCII and holds no `;`.
proof fn lemma_decode_entity(name: Seq<char>, rest: Seq<char>, out: Seq<char>, d: char)
    requires
        1 <= name.len() <= 4,
        forall|k: int| 0 <= k < name.len() ==> (#[trigger] name[k] as u32) < 0x80 && name[k] != ';',
        entity_value(name) == Some(d),
    ensures
        decode_from(seq!['&'] + name + seq![';'] + rest, out, None) == decode_from(rest, out.push(d), None),
{
    lemma_decode_step('&', name + seq![';'] + rest, out, None);
    assert(seq!['&'] + name + seq![';'] + rest == seq!['&'] + (name + seq![';'] + rest));
    lemma_decode_name(name, name.len() as int, seq![';'] + rest, out);
    assert(name.take(name.len() as int) == name);
    assert(name + seq![';'] + rest == name.skip(0) + (seq![';'] + rest));
    assert(name.take(0) == Seq::<char>::empty());
    lemma_decode_step(';', rest, out, Some(name));
}

/// Reading the first `k` characters of an ASCII entity body.
proof fn lemma_decode_name(name: Seq<char>, k: int, tail: Seq<char>, out: Seq<char>)
    requires
        0 <= k <= name.len() <= 4,
        forall|j: int| 0 <= j < name.len() ==> (#[trigger] name[j] as u32) < 0x80 && name[j] != ';',
    ensures
        decode_from(name.skip(0) + tail, out, Some(Seq::empty())) == decode_from(
            name.skip(k) + tail,
            out,
            Some(name.take(k)),
        ),
        utf8_len(name.take(k)) == k,
    decreases k,
{
    if k == 0 {
        assert(name.take(0) == Seq::<char>::empty());
    } else {
        lemma_decode_name(name, k - 1, tail, out);
        let c = name[k - 1];
        assert(name.skip(k - 1) + tail == seq![c] + (name.skip(k) + tail));
        lemma_decode_step(c, name.skip(k) + tail, out, Some(name.take(k - 1)));
        assert(name.take(k - 1).push(c) == name.take(k));
        lemma_utf8_len_push(name.take(k - 1), c);
    }
}

/// Decoding the encoding of `s` followed by `rest` produces `s`, then decodes `rest`.
proof fn lemma_decode_encoded(s: Seq<char>, rest: Seq<char>, out: Seq<char>)
    ensures
        decode_from(encode_spec(s) + rest, out, None) == decode_from(rest, out + s, None),
    decreases s.len(),
{
    if s.len() == 0 {
        assert(encode_spec(s) + rest == rest);
        assert(out + s == out);
    } else {
        let t = s.drop_last();
        let c = s.last();
        assert(encode_spec(s) + rest == encode_spec(t) + (escape_char(c) + rest));
        lemma_decode_encoded(t, escape_char(c) + rest, out);
        let o = out + t;
        assert(o.push(c) == out + s);
        if c == '&' {
            let name = seq!['a', 'm', 'p'];
            assert(escape_char(c) + rest == seq!['&'] + name + seq![';'] + rest);
            lemma_decode_entity(name, rest, o, c);
        } else if c == '"' {
            let name = seq!['q', 'u', 'o', 't'];
            assert(escape_char(c) + rest == seq!['&'] + name + seq![';'] + rest);
            lemma_decode_entity(name, rest, o, c);
        } else if c == '<' {
            let name = seq!['l', 't'];
            assert(escape_char(c) + rest == seq!['&'] + name + seq![';'] + rest);
            lemma_decode_entity(name, rest, o, c);
        } else if c == '>' {
            let name = seq!['g', 't'];
            assert(escape_char(c) + rest == seq!['&'] + name + seq![';'] + rest);
            lemma_decode_entity(name, rest, o, c);
        } else if c == '\'' {
            let name = seq!['a', 'p', 'o', 's'];
            assert(escape_char(c) + rest == seq!['&'] + name + seq![';'] + rest);
            lemma_decode_entity(name, rest, o, c);
        } else {
            assert(escape_char(c) + rest == seq![c] + rest);
            lemma_decode_step(c, rest, o, None);
        }
    }
}

/// Decoding undoes encoding: for every text `s`, `decode(encode(s))` gives back `s`.
pub proof fn lemma_decode_encode_roundtrip(s: Seq<char>)
    ensures
        decode_spec(encode_spec(s)) == Ok::<Seq<char>, Seq<char>>(s),
{
    lemma_decode_encoded(s, Seq::empty(), Seq::empty());
    assert(encode_spec(s) + Seq::<char>::empty() == encode_spec(s));
    assert(Seq::<char>::empty() + s == s);
}

/// Text without `&` decodes to itself.
pub proof fn lemma_decode_plain(s: Seq<char>)
    requires
        !s.contains('&'),
    ensures
        decode_spec(s) == Ok::<Seq<char>, Seq<char>>(s),
{
    lemma_decode_plain_from(s, Seq::empty());
    assert(Seq::<char>::empty() + s == s);
}

proof fn lemma_decode_plain_from(s: Seq<char>, out: Seq<char>)
    requires
        !s.contains('&'),
    ensures
        decode_from(s, out, None) == Ok::<Seq<char>, Seq<char>>(out + s),
    decreases s.len(),
{
    if s.len() == 0 {
        assert(out + s == out);
    } else {
        assert(s[0] != '&');
        assert(!s.drop_first().contains('&')) by {
            if s.drop_first().contains('&') {
                let k = choose|k: int| 0 <= k < s.drop_first().len() && #[trigger] s.drop_first()[k] == '&';
                assert(s[k + 1] == '&');
            }
        }
        lemma_decode_plain_from(s.drop_first(), out.push(s[0]));
        assert(out.push(s[0]) + s.drop_first() == out + s);
    }
}

} // verus!
