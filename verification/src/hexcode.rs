//! Keys as hexadecimal text.

use vstd::prelude::*;
use vstd::string::*;
use vstd::utf8::*;

verus! {

/// Why a text is not the hexadecimal form of a byte string.
#[derive(Debug, Clone, Copy, PartialEq, Eq)]
pub enum HexError {
    /// The character `c` at byte `index` is no hexadecimal digit.
    InvalidHexCharacter { c: char, index: usize },
    /// The text has an odd number of digits.
    OddLength,
    /// The text does not fill a container of a fixed size.
    InvalidStringLength,
}

/// The lower-case hexadecimal digit of a value below sixteen.
pub open spec fn hex_digit(v: int) -> char {
    if v < 10 {
        ('0' as u32 + v) as char
    } else {
        ('a' as u32 + (v - 10)) as char
    }
}

/// The value of a hexadecimal digit of either case.
pub open spec fn hex_value(b: u8) -> Option<int> {
    if 0x30 <= b <= 0x39 {
        Some(b - 0x30)
    } else if 0x41 <= b <= 0x46 {
        Some(b - 0x41 + 10)
    } else if 0x61 <= b <= 0x66 {
        Some(b - 0x61 + 10)
    } else {
        None
    }
}

/// The hexadecimal text of `data`: two lower-case digits for each byte, the
/// high half first.
pub open spec fn hex_text(data: Seq<u8>) -> Seq<char> {
    Seq::new(
        2 * data.len(),
        |i: int|
            if i % 2 == 0 {
                hex_digit(data[i / 2] as int / 16)
            } else {
                hex_digit(data[i / 2] as int % 16)
            },
    )
}

/// Whether `text` holds hexadecimal digits only.
pub open spec fn all_hex(text: Seq<u8>) -> bool {
    forall|i: int| 0 <= i < text.len() ==> hex_value(#[trigger] text[i]) is Some
}

/// The bytes that pairs of hexadecimal digits stand for.
pub open spec fn hex_bytes(text: Seq<u8>) -> Seq<u8> {
    Seq::new(
        text.len() / 2,
        |i: int| (16 * hex_value(text[2 * i])->0 + hex_value(text[2 * i + 1])->0) as u8,
    )
}

/// The position of the first byte of `text` from `from` on that is no
/// hexadecimal digit, or the length of `text` if there is none.
pub open spec fn first_non_hex(text: Seq<u8>, from: int) -> int
    decreases text.len() - from,
{
    if from >= text.len() || hex_value(text[from]) is None {
        from
    } else {
        first_non_hex(text, from + 1)
    }
}

/// What the UTF-8 bytes `text` give when they are read as hexadecimal digits:
/// an odd number of them is refused first, then the first byte that is no
/// digit; otherwise the bytes that they stand for come back.
pub open spec fn hex_decoded(text: Seq<u8>) -> Result<Seq<u8>, HexError> {
    if text.len() % 2 != 0 {
        Err(HexError::OddLength)
    } else if all_hex(text) {
        Ok(hex_bytes(text))
    } else {
        let at = first_non_hex(text, 0);
        Err(HexError::InvalidHexCharacter { c: text[at] as char, index: at as usize })
    }
}

/// `hex::encode`: each byte becomes two lower-case digits, the high half first.
#[verifier::external_body]
pub(crate) fn encode(data: &[u8]) -> (text: String)
    requires
        2 * data@.len() <= isize::MAX,
    ensures
        text@ == hex_text(data@),
{
    hex::encode(data)
}

/// `hex::decode`: an odd number of bytes is refused before anything is read;
/// then the first byte that is no hexadecimal digit is reported, with its
/// position; otherwise each pair of digits, of either case, becomes one byte.
#[verifier::external_body]
pub(crate) fn decode(text: &str) -> (res: Result<Vec<u8>, HexError>)
    ensures
        match res {
            Ok(bytes) => hex_decoded(text.spec_bytes()) == Ok::<Seq<u8>, HexError>(bytes@),
            Err(e) => hex_decoded(text.spec_bytes()) == Err::<Seq<u8>, HexError>(e),
        },
{
    match hex::decode(text) {
        Ok(bytes) => Ok(bytes),
        Err(hex::FromHexError::InvalidHexCharacter { c, index }) => {
            Err(HexError::InvalidHexCharacter { c, index })
        },
        Err(hex::FromHexError::OddLength) => Err(HexError::OddLength),
        Err(hex::FromHexError::InvalidStringLength) => Err(HexError::InvalidStringLength),
    }
}

/// Hexadecimal text is ASCII, two characters for each byte.
pub proof fn hex_text_is_ascii(data: Seq<u8>)
    ensures
        is_ascii_chars(hex_text(data)),
        hex_text(data).len() == 2 * data.len(),
        encode_utf8(hex_text(data)).len() == 2 * data.len(),
{
    let text = hex_text(data);
    assert forall|i: int| 0 <= i < text.len() implies '\0' <= #[trigger] text[i] <= '\u{7f}' by {
        assert(0 <= data[i / 2] as int / 16 < 16);
        assert(0 <= data[i / 2] as int % 16 < 16);
    }
    is_ascii_chars_encode_utf8(text);
}

/// Reading back the hexadecimal text of a byte string gives the byte string.
pub proof fn decode_of_encode(data: Seq<u8>)
    ensures
        hex_decoded(encode_utf8(hex_text(data))) == Ok::<Seq<u8>, HexError>(data),
{
    let text = hex_text(data);
    let bytes = encode_utf8(text);
    hex_text_is_ascii(data);
    is_ascii_chars_encode_utf8(text);
    assert forall|i: int| 0 <= i < bytes.len() implies hex_value(#[trigger] bytes[i]) == Some(
        if i % 2 == 0 {
            data[i / 2] as int / 16
        } else {
            data[i / 2] as int % 16
        },
    ) by {
        assert(bytes[i] == text[i] as u8);
    }
    assert(all_hex(bytes));
    assert(hex_bytes(bytes) =~= data) by {
        assert forall|i: int| 0 <= i < data.len() implies hex_bytes(bytes)[i] == data[i] by {
            assert(hex_value(bytes[2 * i]) == Some(data[i] as int / 16));
            assert(hex_value(bytes[2 * i + 1]) == Some(data[i] as int % 16));
        }
    }
}

/// Hexadecimal text has two digits for each byte, those of its high and of its
/// low half, in lower case.
pub proof fn hex_text_spells_each_byte(data: Seq<u8>, i: int)
    requires
        0 <= i < data.len(),
    ensures
        hex_text(data).len() == 2 * data.len(),
        hex_text(data)[2 * i] == "0123456789abcdef"@[data[i] as int / 16],
        hex_text(data)[2 * i + 1] == "0123456789abcdef"@[data[i] as int % 16],
{
    reveal_strlit("0123456789abcdef");
    lemma_hex_digit(data[i] as int / 16);
    lemma_hex_digit(data[i] as int % 16);
}

proof fn lemma_hex_digit(v: int)
    requires
        0 <= v < 16,
    ensures
        hex_digit(v) == "0123456789abcdef"@[v],
{
    reveal_strlit("0123456789abcdef");
}

/// A byte string is read from its hexadecimal text, each digit in either case.
pub proof fn hex_is_read_in_either_case(text: Seq<char>, data: Seq<u8>)
    requires
        text.len() == 2 * data.len(),
        forall|i: int|
            0 <= i < text.len() ==> #[trigger] text[i] == hex_text(data)[i] || ('A' <= text[i]
                <= 'F' && text[i] as u32 + 32 == hex_text(data)[i] as u32),
    ensures
        hex_decoded(encode_utf8(text)) == Ok::<Seq<u8>, HexError>(data),
{
    let lower = hex_text(data);
    hex_text_is_ascii(data);
    assert(is_ascii_chars(text)) by {
        assert forall|i: int| 0 <= i < text.len() implies '\0' <= #[trigger] text[i] <= '\u{7f}' by {
            assert('\0' <= lower[i] <= '\u{7f}');
        }
    }
    is_ascii_chars_encode_utf8(text);
    let bytes = encode_utf8(text);
    assert forall|i: int| 0 <= i < bytes.len() implies hex_value(#[trigger] bytes[i]) == Some(
        if i % 2 == 0 {
            data[i / 2] as int / 16
        } else {
            data[i / 2] as int % 16
        },
    ) by {
        assert(bytes[i] == text[i] as u8);
        assert(0 <= data[i / 2] as int / 16 < 16);
        assert(0 <= data[i / 2] as int % 16 < 16);
    }
    assert(all_hex(bytes));
    assert(hex_bytes(bytes) =~= data) by {
        assert forall|i: int| 0 <= i < data.len() implies hex_bytes(bytes)[i] == data[i] by {
            assert(hex_value(bytes[2 * i]) == Some(data[i] as int / 16));
            assert(hex_value(bytes[2 * i + 1]) == Some(data[i] as int % 16));
        }
    }
}

/// A text of an odd number of bytes is no hexadecimal text; one of an even number
/// is refused for its first byte that is no digit of either case.
pub proof fn other_text_is_no_hex(text: Seq<u8>, at: int)
    requires
        0 <= at < text.len() <= usize::MAX,
        !(0x30 <= text[at] <= 0x39 || 0x41 <= text[at] <= 0x46 || 0x61 <= text[at] <= 0x66),
        forall|i: int|
            0 <= i < at ==> 0x30 <= #[trigger] text[i] <= 0x39 || 0x41 <= text[i] <= 0x46 || 0x61
                <= text[i] <= 0x66,
    ensures
        text.len() % 2 == 1 ==> hex_decoded(text) == Err::<Seq<u8>, HexError>(HexError::OddLength),
        text.len() % 2 == 0 ==> hex_decoded(text) == Err::<Seq<u8>, HexError>(
            HexError::InvalidHexCharacter { c: text[at] as char, index: at as usize },
        ),
{
    assert(hex_value(text[at]) is None);
    lemma_first_non_hex(text, 0, at);
}

proof fn lemma_first_non_hex(text: Seq<u8>, from: int, at: int)
    requires
        0 <= from <= at < text.len(),
        hex_value(text[at]) is None,
        forall|i: int| from <= i < at ==> hex_value(#[trigger] text[i]) is Some,
    ensures
        first_non_hex(text, from) == at,
    decreases at - from,
{
    if from < at {
        assert(hex_value(text[from]) is Some);
        lemma_first_non_hex(text, from + 1, at);
    }
}

/// No text of an odd number of bytes is hexadecimal.
pub proof fn odd_text_is_no_hex(text: Seq<u8>)
    requires
        text.len() % 2 == 1,
    ensures
        hex_decoded(text) == Err::<Seq<u8>, HexError>(HexError::OddLength),
{
}

} // verus!
