//! Identifiers (UUIDs through the `uuid` crate) and the base64 text of
//! screenshots (through the `base64` crate).
use vstd::prelude::*;

verus! {

/// Whether `id` carries the version (4, random) and variant (RFC 4122) bits
/// of a random UUID.
pub open spec fn is_random_uuid(id: u128) -> bool {
    &&& (id >> 76u128) & 0xfu128 == 4u128
    &&& (id >> 62u128) & 0x3u128 == 2u128
}

/// A fresh random identifier (`Uuid::new_v4`, as its 128-bit value). The bits
/// come from the operating system's random source; `new_v4` masks in the
/// version and variant bits, and that is all that is known of the value.
#[verifier::external_body]
pub(crate) fn new_id() -> (id: u128)
    ensures
        is_random_uuid(id),
{
    uuid::Uuid::new_v4().as_u128()
}

/// The lowercase hexadecimal digit of `d`.
pub open spec fn hex_char(d: nat) -> char {
    if d < 10 {
        (d + 48) as char
    } else {
        (d + 87) as char
    }
}

/// The last `n` hexadecimal digits of `v`, most significant first.
pub open spec fn hex_digits(v: nat, n: nat) -> Seq<char>
    decreases n,
{
    if n == 0 {
        Seq::empty()
    } else {
        hex_digits(v / 16, (n - 1) as nat).push(hex_char(v % 16))
    }
}

/// The hyphenated lowercase form of a UUID: 32 hexadecimal digits in groups
/// of 8, 4, 4, 4 and 12.
pub open spec fn uuid_text(id: u128) -> Seq<char> {
    let h = hex_digits(id as nat, 32);
    h.subrange(0, 8) + seq!['-'] + h.subrange(8, 12) + seq!['-'] + h.subrange(12, 16) + seq!['-']
        + h.subrange(16, 20) + seq!['-'] + h.subrange(20, 32)
}

/// The text of an identifier as `Uuid`'s `Display` writes it (`to_string`),
/// which is the hyphenated lowercase form.
#[verifier::external_body]
pub(crate) fn id_text(id: u128) -> (r: String)
    ensures
        r@ == uuid_text(id),
{
    uuid::Uuid::from_u128(id).to_string()
}

/// What `Uuid::parse_str` makes of a text: the 128-bit value, or the message
/// of its error.
pub uninterp spec fn uuid_parse(s: Seq<char>) -> Result<u128, Seq<char>>;

/// Reads an identifier from text (`Uuid::parse_str`), giving the error's
/// message (`to_string`) when the text is not a UUID. The parser accepts
/// the hyphenated form that `id_text` writes and gives back its value.
#[verifier::external_body]
pub(crate) fn parse_id(s: &str) -> (r: Result<u128, String>)
    ensures
        uuid_parse(s@) == (match r {
            Ok(v) => Ok::<u128, Seq<char>>(v),
            Err(e) => Err::<u128, Seq<char>>(e@),
        }),
        forall|v: u128| s@ == uuid_text(v) ==> (r == Ok::<u128, String>(v)),
{
    match uuid::Uuid::parse_str(s) {
        Ok(u) => Ok(u.as_u128()),
        Err(e) => Err(e.to_string()),
    }
}

/// The character of a base64 digit (0 to 63) in the standard alphabet
/// `A-Z a-z 0-9 + /`.
pub open spec fn base64_digit(v: int) -> char {
    if v < 26 {
        (v + 65) as char
    } else if v < 52 {
        (v - 26 + 97) as char
    } else if v < 62 {
        (v - 52 + 48) as char
    } else if v == 62 {
        '+'
    } else {
        '/'
    }
}

/// The standard base64 text of a byte sequence: every three bytes become
/// four digits of six bits each, most significant first; a last group of
/// one or two bytes is padded with zero bits and then with `=` to four
/// characters.
pub open spec fn base64_standard(data: Seq<u8>) -> Seq<char>
    decreases data.len(),
{
    if data.len() == 0 {
        Seq::empty()
    } else if data.len() == 1 {
        let a = data[0] as int;
        seq![base64_digit(a / 4), base64_digit((a % 4) * 16), '=', '=']
    } else if data.len() == 2 {
        let a = data[0] as int;
        let b = data[1] as int;
        seq![
            base64_digit(a / 4),
            base64_digit((a % 4) * 16 + b / 16),
            base64_digit((b % 16) * 4),
            '=',
        ]
    } else {
        let a = data[0] as int;
        let b = data[1] as int;
        let c = data[2] as int;
        seq![
            base64_digit(a / 4),
            base64_digit((a % 4) * 16 + b / 16),
            base64_digit((b % 16) * 4 + c / 64),
            base64_digit(c % 64),
        ] + base64_standard(data.subrange(3, data.len() as int))
    }
}

/// Encodes bytes as standard padded base64
/// (`base64::engine::general_purpose::STANDARD.encode`), which writes
/// `base64_standard` of them.
#[verifier::external_body]
pub(crate) fn base64_encode(data: &[u8]) -> (r: String)
    ensures
        r@ == base64_standard(data@),
{
    base64::Engine::encode(&base64::engine::general_purpose::STANDARD, data)
}

/// Base64 text is four characters for every three bytes or part of them.
pub proof fn lemma_base64_len(data: Seq<u8>)
    ensures
        base64_standard(data).len() == 4 * ((data.len() + 2) / 3),
    decreases data.len(),
{
    if data.len() > 2 {
        lemma_base64_len(data.subrange(3, data.len() as int));
    }
}

} // verus!
