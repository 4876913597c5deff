//! Thread identifiers: 128-bit numbers written as UUIDs.

use vstd::prelude::*;

verus! {

/// Identifier of a thread, and of each rollout that holds part of a thread's history.
#[derive(Clone, Copy, Debug, PartialEq, Eq, Structural)]
pub struct ThreadId {
    pub value: u128,
}

/// A text that does not spell a thread identifier.
#[derive(Clone, Copy, Debug, PartialEq, Eq, Structural)]
pub struct InvalidThreadId;

/// The digit that a hexadecimal character stands for.
pub open spec fn hex_value(c: char) -> Option<nat> {
    if '0' <= c <= '9' {
        Some((c as int - '0' as int) as nat)
    } else if 'a' <= c <= 'f' {
        Some((c as int - 'a' as int + 10) as nat)
    } else if 'A' <= c <= 'F' {
        Some((c as int - 'A' as int + 10) as nat)
    } else {
        None
    }
}

/// The number that hexadecimal digits spell, most significant digit first.
pub open spec fn hex_number(digits: Seq<char>) -> Option<nat>
    decreases digits.len(),
{
    if digits.len() == 0 {
        Some(0nat)
    } else {
        match (hex_number(digits.drop_last()), hex_value(digits.last())) {
            (Some(high), Some(low)) => Some(high * 16 + low),
            _ => None,
        }
    }
}

/// The characters of a hyphenated UUID without its hyphens, if they stand in the right places.
pub open spec fn without_hyphens(text: Seq<char>) -> Option<Seq<char>> {
    if text.len() == 36 && text[8] == '-' && text[13] == '-' && text[18] == '-' && text[23] == '-' {
        Some(
            text.subrange(0, 8) + text.subrange(9, 13) + text.subrange(14, 18)
                + text.subrange(19, 23) + text.subrange(24, 36),
        )
    } else {
        None
    }
}

/// An ASCII letter in lower case; every other character as it is.
pub open spec fn ascii_lower(c: char) -> char {
    if 'A' <= c <= 'Z' {
        (c as int - 'A' as int + 'a' as int) as char
    } else {
        c
    }
}

/// The digits of a UUID in any of its spellings: bare digits, hyphenated, hyphenated in braces,
/// or hyphenated behind `urn:uuid:` in any case.
pub open spec fn uuid_digits(text: Seq<char>) -> Option<Seq<char>> {
    if text.len() == 32 {
        Some(text)
    } else if text.len() == 36 {
        without_hyphens(text)
    } else if text.len() == 38 && text[0] == '{' && text[37] == '}' {
        without_hyphens(text.subrange(1, 37))
    } else if text.len() == 45 && text.take(9).map_values(|c: char| ascii_lower(c))
        == "urn:uuid:"@ {
        without_hyphens(text.skip(9))
    } else {
        None
    }
}

/// The number that a text spells as a UUID.
pub open spec fn uuid_number(text: Seq<char>) -> Option<nat> {
    match uuid_digits(text) {
        Some(digits) => hex_number(digits),
        None => None,
    }
}

/// The lower-case character of a hexadecimal digit.
pub open spec fn hex_char(digit: nat) -> char {
    if digit < 10 {
        ('0' as int + digit) as char
    } else {
        ('a' as int + digit - 10) as char
    }
}

/// The last `count` hexadecimal digits of a number.
pub open spec fn hex_digits(number: nat, count: nat) -> Seq<char>
    decreases count,
{
    if count == 0 {
        Seq::empty()
    } else {
        hex_digits(number / 16, (count - 1) as nat).push(hex_char(number % 16))
    }
}

/// The hyphenated lower-case spelling of a number as a UUID.
pub open spec fn hyphenated(number: nat) -> Seq<char> {
    let digits = hex_digits(number, 32);
    digits.subrange(0, 8) + seq!['-'] + digits.subrange(8, 12) + seq!['-'] + digits.subrange(12, 16)
        + seq!['-'] + digits.subrange(16, 20) + seq!['-'] + digits.subrange(20, 32)
}

/// `uuid::Uuid::parse_str`, read as a number by `as_u128`: succeeds exactly on the four spellings
/// of [`uuid_digits`] whose digits are all hexadecimal, in either case, and gives the number that
/// the digits spell.
#[verifier::external_body]
fn parse_uuid(text: &str) -> (number: Option<u128>)
    ensures
        number matches Some(value) ==> uuid_number(text@) == Some(value as nat),
        number is None ==> uuid_number(text@) is None,
{
    uuid::Uuid::parse_str(text).ok().map(|id| id.as_u128())
}

/// `uuid::Uuid` made by `from_u128` and written by its `Display`: the hyphenated lower-case
/// spelling of the number.
#[verifier::external_body]
fn uuid_text(value: u128) -> (text: String)
    ensures
        text@ == hyphenated(value as nat),
{
    uuid::Uuid::from_u128(value).to_string()
}

impl ThreadId {
    /// The spelling of this identifier in messages and file names.
    pub open spec fn text(self) -> Seq<char> {
        hyphenated(self.value as nat)
    }

    /// The identifier that a text spells as a UUID.
    pub fn from_string(text: &str) -> (id: Result<ThreadId, InvalidThreadId>)
        ensures
            id matches Ok(id) ==> uuid_number(text@) == Some(id.value as nat),
            id is Err ==> uuid_number(text@) is None,
    {
        match parse_uuid(text) {
            Some(value) => Ok(ThreadId { value }),
            None => Err(InvalidThreadId),
        }
    }

    /// The hyphenated lower-case spelling of this identifier.
    pub fn to_text(&self) -> (text: String)
        ensures
            text@ == self.text(),
    {
        uuid_text(self.value)
    }
}

/// One more than the largest number of `count` hexadecimal digits.
spec fn hex_limit(count: nat) -> nat
    decreases count,
{
    if count == 0 {
        1
    } else {
        16 * hex_limit((count - 1) as nat)
    }
}

proof fn lemma_hex_round_trip(number: nat, count: nat)
    requires
        number < hex_limit(count),
    ensures
        hex_digits(number, count).len() == count,
        hex_number(hex_digits(number, count)) == Some(number),
    decreases count,
{
    if count > 0 {
        lemma_hex_round_trip(number / 16, (count - 1) as nat);
        let digits = hex_digits(number, count);
        assert(digits.drop_last() =~= hex_digits(number / 16, (count - 1) as nat));
        assert(hex_value(digits.last()) == Some(number % 16));
    }
}

/// An identifier's text spells that identifier and no other.
pub proof fn law_text_spells_identifier(id: ThreadId)
    ensures
        id.text().len() == 36,
        uuid_number(id.text()) == Some(id.value as nat),
{
    assert(hex_limit(32) == 0x1_0000_0000_0000_0000_0000_0000_0000_0000) by {
        reveal_with_fuel(hex_limit, 33);
    }
    lemma_hex_round_trip(id.value as nat, 32);
    let digits = hex_digits(id.value as nat, 32);
    let text = id.text();
    assert(text[8] == '-' && text[13] == '-' && text[18] == '-' && text[23] == '-');
    assert(without_hyphens(text) == Some(digits)) by {
        assert(text.subrange(0, 8) + text.subrange(9, 13) + text.subrange(14, 18)
            + text.subrange(19, 23) + text.subrange(24, 36) =~= digits);
    }
}

/// Two identifiers with one text are the same identifier.
pub proof fn law_text_is_injective(left: ThreadId, right: ThreadId)
    requires
        left.text() == right.text(),
    ensures
        left == right,
{
    law_text_spells_identifier(left);
    law_text_spells_identifier(right);
}

proof fn lemma_hex_digits_are_lower_case(number: nat, count: nat, i: int)
    requires
        0 <= i < count,
    ensures
        hex_digits(number, count).len() == count,
        '0' <= hex_digits(number, count)[i] <= '9' || 'a' <= hex_digits(number, count)[i] <= 'f',
    decreases count,
{
    if count > 1 {
        lemma_hex_digits_are_lower_case(
            number / 16,
            (count - 1) as nat,
            if i < count - 1 {
                i
            } else {
                0
            },
        );
    } else {
        assert(hex_digits(number / 16, 0).len() == 0);
    }
}

/// The text of an identifier has 36 characters, hyphens in four places and lower-case hexadecimal
/// digits elsewhere.
pub proof fn law_texts_are_hyphenated(id: ThreadId, text: String, i: int)
    requires
        call_ensures(ThreadId::to_text, (&id,), text),
        0 <= i < 36,
    ensures
        text@.len() == 36,
        text@ == id.text(),
        i == 8 || i == 13 || i == 18 || i == 23 <==> text@[i] == '-',
        text@[i] == '-' || '0' <= text@[i] <= '9' || 'a' <= text@[i] <= 'f',
{
    law_text_spells_identifier(id);
    let digits = hex_digits(id.value as nat, 32);
    lemma_hex_digits_are_lower_case(id.value as nat, 32, 0);
    assert forall|k: int| 0 <= k < 32 implies '0' <= (#[trigger] digits[k]) <= '9' || 'a'
        <= digits[k] <= 'f' by {
        lemma_hex_digits_are_lower_case(id.value as nat, 32, k);
    }
    let place = if i < 8 {
        i
    } else if i < 13 {
        i - 1
    } else if i < 18 {
        i - 2
    } else if i < 23 {
        i - 3
    } else {
        i - 4
    };
    if i != 8 && i != 13 && i != 18 && i != 23 {
        assert(text@[i] == digits[place]);
    }
}

/// An identifier that is written and read again is the same, and what is read does not depend on
/// anything but the number that the text spells.
pub proof fn law_written_identifiers_are_read_back(
    id: ThreadId,
    text: String,
    read: &str,
    parsed: Result<ThreadId, InvalidThreadId>,
    other: &str,
    other_parsed: Result<ThreadId, InvalidThreadId>,
)
    requires
        call_ensures(ThreadId::to_text, (&id,), text),
        call_ensures(ThreadId::from_string, (read,), parsed),
        call_ensures(ThreadId::from_string, (other,), other_parsed),
    ensures
        read@ == text@ ==> parsed == Ok::<ThreadId, InvalidThreadId>(id),
        uuid_number(read@) == uuid_number(other@) ==> (parsed is Ok <==> other_parsed is Ok) && (
        parsed is Ok ==> parsed->Ok_0 == other_parsed->Ok_0),
        parsed is Ok <==> uuid_number(read@) is Some,
{
    law_text_spells_identifier(id);
}

} // verus!
