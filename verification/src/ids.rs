//! Identifiers: 128-bit numbers with their textual forms.
use crate::status::{Code, Status};
use crate::text::{digit_char, hex_spec};
use crate::wire::be_value;
use vstd::prelude::*;

verus! {

/// The `width` low bytes of `value`, most significant first.
pub open spec fn be_bytes(value: nat, width: nat) -> Seq<u8>
    decreases width,
{
    if width == 0 {
        Seq::empty()
    } else {
        be_bytes(value / 256, (width - 1) as nat).push((value % 256) as u8)
    }
}

/// The 32 lower-case hexadecimal digits of an identifier.
pub open spec fn simple_text(id: u128) -> Seq<char> {
    hex_spec(be_bytes(id as nat, 16))
}

/// 32 digits in groups of 8, 4, 4, 4 and 12, with a hyphen between groups.
pub open spec fn hyphenated(digits: Seq<char>) -> Seq<char> {
    digits.subrange(0, 8) + seq!['-'] + digits.subrange(8, 12) + seq!['-'] + digits.subrange(12, 16)
        + seq!['-'] + digits.subrange(16, 20) + seq!['-'] + digits.subrange(20, 32)
}

/// The text form of an identifier.
pub open spec fn id_text_spec(id: u128) -> Seq<char> {
    hyphenated(simple_text(id))
}

/// The value of a hexadecimal digit of either case.
pub open spec fn hex_digit_value(c: char) -> Option<nat> {
    if '0' <= c && c <= '9' {
        Some((c as int - '0' as int) as nat)
    } else if 'a' <= c && c <= 'f' {
        Some((c as int - 'a' as int + 10) as nat)
    } else if 'A' <= c && c <= 'F' {
        Some((c as int - 'A' as int + 10) as nat)
    } else {
        None
    }
}

/// The number that a string of hexadecimal digits stands for.
pub open spec fn hex_number(digits: Seq<char>) -> Option<nat>
    decreases digits.len(),
{
    if digits.len() == 0 {
        Some(0)
    } else {
        match (hex_number(digits.drop_last()), hex_digit_value(digits.last())) {
            (Some(high), Some(low)) => Some(16 * high + low),
            _ => None,
        }
    }
}

/// The identifier written as five hyphenated groups.
pub open spec fn hyphenated_value(text: Seq<char>) -> Option<nat> {
    if text.len() == 36 && text[8] == '-' && text[13] == '-' && text[18] == '-' && text[23] == '-' {
        hex_number(
            text.subrange(0, 8) + text.subrange(9, 13) + text.subrange(14, 18) + text.subrange(
                19,
                23,
            ) + text.subrange(24, 36),
        )
    } else {
        None
    }
}

/// `c` without regard to ASCII case.
pub open spec fn ascii_lower(c: char) -> char {
    if 'A' <= c && c <= 'Z' { (c as int + 32) as char } else { c }
}

/// The identifier that a text stands for: 32 digits, five hyphenated groups,
/// those in braces, or those behind `urn:uuid:`.
pub open spec fn id_of_text(text: Seq<char>) -> Option<nat> {
    if text.len() == 32 {
        hex_number(text)
    } else if text.len() == 36 {
        hyphenated_value(text)
    } else if text.len() == 38 && text[0] == '{' && text[37] == '}' {
        hyphenated_value(text.subrange(1, 37))
    } else if text.len() == 45 && text.subrange(0, 9).map_values(|c: char| ascii_lower(c))
        == seq!['u', 'r', 'n', ':', 'u', 'u', 'i', 'd', ':'] {
        hyphenated_value(text.subrange(9, 45))
    } else {
        None
    }
}

/// `uuid::Uuid` displayed in its default form: five hyphenated groups of
/// lower-case hexadecimal digits.
#[verifier::external_body]
pub(crate) fn id_text(id: u128) -> (text: String)
    ensures
        text@ == id_text_spec(id),
{
    uuid::Uuid::from_u128(id).to_string()
}

/// `uuid::Uuid::simple` displayed: the 32 lower-case digits alone.
#[verifier::external_body]
pub(crate) fn id_simple_text(id: u128) -> (text: String)
    ensures
        text@ == simple_text(id),
{
    uuid::Uuid::from_u128(id).simple().to_string()
}

/// `uuid::Uuid::parse_str`: the four accepted spellings, digits of either
/// case; anything else is refused.
#[verifier::external_body]
fn parse_id(text: &str) -> (id: Option<u128>)
    ensures
        match id {
            Some(value) => id_of_text(text@) == Some(value as nat),
            None => id_of_text(text@) is None,
        },
{
    uuid::Uuid::parse_str(text).ok().map(|id| id.as_u128())
}

/// The run identifier in a request.
pub fn parse_run_id(value: &str) -> (id: Result<u128, Status>)
    ensures
        match id {
            Ok(run_id) => id_of_text(value@) == Some(run_id as nat),
            Err(status) => id_of_text(value@) is None && status.says(
                Code::InvalidArgument,
                "invalid run ID"@,
            ),
        },
{
    match parse_id(value) {
        Some(id) => Ok(id),
        None => Err(Status::invalid_argument("invalid run ID")),
    }
}

/// The text of a run identifier, as replies carry it.
pub fn run_id_text(id: u128) -> (text: String)
    ensures
        text@ == id_text_spec(id),
{
    id_text(id)
}

pub proof fn lemma_be_bytes_len(value: nat, width: nat)
    ensures
        be_bytes(value, width).len() == width,
    decreases width,
{
    if width > 0 {
        lemma_be_bytes_len(value / 256, (width - 1) as nat);
    }
}

pub proof fn lemma_be_round_trip(value: nat, width: nat)
    requires
        value < vstd::arithmetic::power::pow(256, width),
    ensures
        be_value(be_bytes(value, width)) == value,
    decreases width,
{
    reveal(vstd::arithmetic::power::pow);
    if width > 0 {
        let p = vstd::arithmetic::power::pow(256, (width - 1) as nat);
        assert(vstd::arithmetic::power::pow(256, width) == 256 * p);
        assert(value / 256 < p) by (nonlinear_arith)
            requires
                value < 256 * p,
        ;
        lemma_be_round_trip(value / 256, (width - 1) as nat);
        assert(be_bytes(value, width).drop_last() =~= be_bytes(value / 256, (width - 1) as nat));
    }
}

proof fn lemma_hex_number_of_hex(bytes: Seq<u8>)
    ensures
        hex_spec(bytes).len() == 2 * bytes.len(),
        hex_number(hex_spec(bytes)) == Some(be_value(bytes)),
    decreases bytes.len(),
{
    if bytes.len() > 0 {
        let before = hex_spec(bytes.drop_last());
        let high = digit_char(bytes.last() as int / 16);
        let low = digit_char(bytes.last() as int % 16);
        lemma_hex_number_of_hex(bytes.drop_last());
        let text = hex_spec(bytes);
        assert(text =~= before.push(high).push(low));
        assert(text.drop_last() =~= before.push(high));
        assert(text.drop_last().drop_last() =~= before);
        assert(hex_digit_value(high) == Some((bytes.last() as int / 16) as nat));
        assert(hex_digit_value(low) == Some((bytes.last() as int % 16) as nat));
        assert(hex_number(text.drop_last()) == Some(
            16 * be_value(bytes.drop_last()) + (bytes.last() as int / 16) as nat,
        ));
    }
}

/// An identifier has 32 digits.
pub proof fn lemma_simple_text_len(id: u128)
    ensures
        simple_text(id).len() == 32,
{
    lemma_be_bytes_len(id as nat, 16);
    lemma_hex_number_of_hex(be_bytes(id as nat, 16));
}

/// The text of an identifier reads back as that identifier, in both forms.
pub proof fn law_id_reads_back(id: u128)
    ensures
        id_of_text(id_text_spec(id)) == Some(id as nat),
        id_of_text(simple_text(id)) == Some(id as nat),
{
    let bytes = be_bytes(id as nat, 16);
    let digits = simple_text(id);
    lemma_be_bytes_len(id as nat, 16);
    lemma_hex_number_of_hex(bytes);
    assert(id < vstd::arithmetic::power::pow(256, 16)) by {
        reveal_with_fuel(vstd::arithmetic::power::pow, 17);
    }
    lemma_be_round_trip(id as nat, 16);
    let text = id_text_spec(id);
    assert(text.len() == 36);
    assert(text.subrange(0, 8) + text.subrange(9, 13) + text.subrange(14, 18) + text.subrange(19, 23)
        + text.subrange(24, 36) =~= digits);
}

/// Two identifiers with the same text are equal.
pub proof fn law_id_text_injective(a: u128, b: u128)
    requires
        id_text_spec(a) == id_text_spec(b),
    ensures
        a == b,
{
    law_id_reads_back(a);
    law_id_reads_back(b);
}

} // verus!
