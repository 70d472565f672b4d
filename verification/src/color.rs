//! Hexadecimal colours.
use vstd::prelude::*;
use vstd::string::*;
use vstd::utf8::*;

verus! {

/// What is left of `text` without the `#` characters that it starts with.
pub open spec fn without_hashes(text: Seq<char>) -> Seq<char>
    decreases text.len(),
{
    if text.len() > 0 && text[0] == '#' {
        without_hashes(text.drop_first())
    } else {
        text
    }
}

/// The value of a hexadecimal digit.
pub open spec fn hex_digit(byte: u8) -> Option<u8> {
    if 48 <= byte <= 57 {
        Some((byte - 48) as u8)
    } else if 97 <= byte <= 102 {
        Some((byte - 87) as u8)
    } else if 65 <= byte <= 70 {
        Some((byte - 55) as u8)
    } else {
        None
    }
}

/// The value of two bytes read as a hexadecimal number, which may start with `+`.
pub open spec fn hex_pair(high: u8, low: u8) -> Option<u8> {
    match (hex_digit(high), hex_digit(low)) {
        (Some(h), Some(l)) => Some((16 * h + l) as u8),
        (None, Some(l)) => if high == 43 {
            Some(l)
        } else {
            None
        },
        _ => None,
    }
}

/// Whether the two-byte pieces of `text` that get read start and end between
/// characters.
pub open spec fn pieces_are_whole(text: Seq<char>) -> bool {
    let bytes = encode_utf8(without_hashes(text));
    bytes.len() == 6 ==> {
        &&& is_char_boundary(bytes, 2)
        &&& hex_pair(bytes[0], bytes[1]) is Some ==> is_char_boundary(bytes, 4)
    }
}

/// The colour that `text` spells, if it spells one.
pub open spec fn color_of(text: Seq<char>) -> Option<(u8, u8, u8)> {
    let bytes = encode_utf8(without_hashes(text));
    if bytes.len() != 6 {
        None
    } else {
        match (
            hex_pair(bytes[0], bytes[1]),
            hex_pair(bytes[2], bytes[3]),
            hex_pair(bytes[4], bytes[5]),
        ) {
            (Some(r), Some(g), Some(b)) => Some((r, g, b)),
            _ => None,
        }
    }
}

/// The complaint about a text that spells no colour.
pub open spec fn color_error(text: Seq<char>) -> Seq<char> {
    let digits = without_hashes(text);
    if encode_utf8(digits).len() != 6 {
        "Invalid hex color: #"@ + digits
    } else {
        "Bad hex: invalid digit found in string"@
    }
}

fn read_digit(byte: u8) -> (value: Option<u8>)
    ensures
        value == hex_digit(byte),
{
    if 48 <= byte && byte <= 57 {
        Some(byte - 48)
    } else if 97 <= byte && byte <= 102 {
        Some(byte - 87)
    } else if 65 <= byte && byte <= 70 {
        Some(byte - 55)
    } else {
        None
    }
}

fn read_pair(high: u8, low: u8) -> (value: Option<u8>)
    ensures
        value == hex_pair(high, low),
{
    match (read_digit(high), read_digit(low)) {
        (Some(h), Some(l)) => Some(16 * h + l),
        (None, Some(l)) => if high == 43 {
            Some(l)
        } else {
            None
        },
        _ => None,
    }
}

/// The text without the `#` characters that it starts with.
fn strip_hashes(text: &str) -> (digits: &str)
    ensures
        digits@ == without_hashes(text@),
{
    let mut digits: &str = text;
    while digits.unicode_len() > 0 && digits.get_char(0) == '#'
        invariant
            without_hashes(digits@) == without_hashes(text@),
        decreases digits@.len(),
    {
        digits = digits.substring_char(1, digits.unicode_len());
    }
    digits
}

/// Whether a text can be read piece by piece: what a caller that does not know tests before
/// it parses.
pub fn can_read(hex: &str) -> (whole: bool)
    ensures
        whole == pieces_are_whole(hex@),
{
    let digits: &str = strip_hashes(hex);
    let bytes = digits.as_bytes();
    if bytes.len() != 6 {
        return true;
    }
    digits.is_char_boundary(2) && (read_pair(bytes[0], bytes[1]).is_none()
        || digits.is_char_boundary(4))
}

/// Parses a hex colour string such as "#0f0f23" or "0f0f23" into (r, g, b).
pub fn parse_hex_color(hex: &str) -> (color: Result<(u8, u8, u8), String>)
    requires
        pieces_are_whole(hex@),
    ensures
        color is Ok <==> color_of(hex@) is Some,
        color matches Ok(rgb) ==> color_of(hex@) == Some(rgb),
        color matches Err(message) ==> message@ == color_error(hex@),
{
    let digits: &str = strip_hashes(hex);
    let bytes = digits.as_bytes();
    if bytes.len() != 6 {
        return Err(String::from_str("Invalid hex color: #").concat(digits));
    }
    match (
        read_pair(bytes[0], bytes[1]),
        read_pair(bytes[2], bytes[3]),
        read_pair(bytes[4], bytes[5]),
    ) {
        (Some(r), Some(g), Some(b)) => Ok((r, g, b)),
        _ => Err(String::from_str("Bad hex: invalid digit found in string")),
    }
}

/// A colour may be written with or without a `#`.
pub proof fn law_hash_is_optional(text: Seq<char>)
    ensures
        color_of(seq!['#'] + text) == color_of(text),
        color_error(seq!['#'] + text) == color_error(text),
{
    let marked = seq!['#'] + text;
    assert(marked.drop_first() =~= text);
    assert(without_hashes(marked) == without_hashes(text));
}

/// An ASCII text is one without its hashes, too.
proof fn lemma_without_hashes_is_ascii(text: Seq<char>)
    requires
        is_ascii_chars(text),
    ensures
        is_ascii_chars(without_hashes(text)),
    decreases text.len(),
{
    if text.len() > 0 && text[0] == '#' {
        lemma_without_hashes_is_ascii(text.drop_first());
    }
}

/// Every ASCII text can be read piece by piece.
pub proof fn law_ascii_can_be_read(text: Seq<char>)
    requires
        is_ascii_chars(text),
    ensures
        pieces_are_whole(text),
{
    let digits = without_hashes(text);
    let bytes = encode_utf8(digits);
    lemma_without_hashes_is_ascii(text);
    is_ascii_chars_encode_utf8(digits);
    encode_utf8_valid_utf8(digits);
    if bytes.len() == 6 {
        assert(digits[2] as u8 == bytes[2] && digits[4] as u8 == bytes[4]);
        is_char_boundary_iff_not_is_continuation_byte(bytes, 2);
        is_char_boundary_iff_not_is_continuation_byte(bytes, 4);
    }
}

/// Six hexadecimal digits spell a colour, two for each channel.
pub proof fn law_six_digits_are_a_color(text: Seq<char>)
    requires
        text.len() == 6,
        is_ascii_chars(text),
        forall|i: int| 0 <= i < 6 ==> hex_digit(#[trigger] text[i] as u8) is Some,
    ensures
        color_of(text) == Some(
            (
                (16 * hex_digit(text[0] as u8)->0 + hex_digit(text[1] as u8)->0) as u8,
                (16 * hex_digit(text[2] as u8)->0 + hex_digit(text[3] as u8)->0) as u8,
                (16 * hex_digit(text[4] as u8)->0 + hex_digit(text[5] as u8)->0) as u8,
            ),
        ),
{
    assert(hex_digit(text[0] as u8) is Some);
    assert(text[0] != '#');
    assert(without_hashes(text) == text);
    is_ascii_chars_encode_utf8(text);
}

/// The digits of the hexadecimal numbers, in order.
pub open spec fn lower_digits() -> Seq<char> {
    "0123456789abcdef"@
}

/// The same, with capital letters.
pub open spec fn upper_digits() -> Seq<char> {
    "0123456789ABCDEF"@
}

/// A digit is worth its place among the digits, in either case, and nothing else is a digit.
pub proof fn law_digit_is_its_place(byte: u8)
    ensures
        forall|d: int|
            0 <= d < 16 ==> hex_digit(#[trigger] lower_digits()[d] as u8) == Some(d as u8),
        forall|d: int|
            0 <= d < 16 ==> hex_digit(#[trigger] upper_digits()[d] as u8) == Some(d as u8),
        hex_digit(byte) matches Some(d) ==> d < 16 && (byte == lower_digits()[d as int] as u8
            || byte == upper_digits()[d as int] as u8),
{
    reveal_strlit("0123456789abcdef");
    reveal_strlit("0123456789ABCDEF");
}

/// A colour that is written out, red first, two digits a channel and the higher one first,
/// is read back.
pub proof fn law_written_color_is_read_back(r: u8, g: u8, b: u8, text: Seq<char>)
    requires
        text == seq![
            lower_digits()[r as int / 16],
            lower_digits()[r as int % 16],
            lower_digits()[g as int / 16],
            lower_digits()[g as int % 16],
            lower_digits()[b as int / 16],
            lower_digits()[b as int % 16],
        ] || text == seq![
            upper_digits()[r as int / 16],
            upper_digits()[r as int % 16],
            upper_digits()[g as int / 16],
            upper_digits()[g as int % 16],
            upper_digits()[b as int / 16],
            upper_digits()[b as int % 16],
        ],
    ensures
        color_of(text) == Some((r, g, b)),
        color_of(seq!['#'] + text) == Some((r, g, b)),
{
    reveal_strlit("0123456789abcdef");
    reveal_strlit("0123456789ABCDEF");
    law_digit_is_its_place(0);
    assert(is_ascii_chars(text));
    law_six_digits_are_a_color(text);
    law_hash_is_optional(text);
}

/// What is left of a text without its hashes is its end, from the first character on that is
/// no hash.
pub proof fn law_hashes_are_stripped(text: Seq<char>)
    ensures
        ({
            let digits = without_hashes(text);
            let cut = text.len() - digits.len();
            &&& 0 <= cut <= text.len()
            &&& text.subrange(cut, text.len() as int) == digits
            &&& forall|i: int| 0 <= i < cut ==> #[trigger] text[i] == '#'
            &&& digits.len() > 0 ==> digits[0] != '#'
        }),
    decreases text.len(),
{
    if text.len() > 0 && text[0] == '#' {
        law_hashes_are_stripped(text.drop_first());
        let digits = without_hashes(text);
        let cut = text.len() - digits.len();
        assert(text.subrange(cut, text.len() as int) =~= text.drop_first().subrange(
            cut - 1,
            text.len() - 1,
        ));
        assert forall|i: int| 0 <= i < cut implies #[trigger] text[i] == '#' by {
            if i > 0 {
                assert(text.drop_first()[i - 1] == '#');
            }
        }
    } else {
        assert(text.subrange(0, text.len() as int) =~= text);
    }
}

/// A text that spells a colour has six bytes behind its hashes; the second of every two is a
/// digit, and so is the first, unless it is a plus sign.
pub proof fn law_colors_are_made_of_digits(text: Seq<char>, i: int)
    requires
        color_of(text) is Some,
        0 <= i < 3,
    ensures
        ({
            let bytes = encode_utf8(without_hashes(text));
            &&& bytes.len() == 6
            &&& hex_digit(bytes[2 * i + 1]) is Some
            &&& hex_digit(bytes[2 * i]) is Some || bytes[2 * i] == '+' as u8
        }),
{
}

/// A text of six bytes whose second and third, or, behind a readable first channel, fourth
/// and fifth are one character cannot be read.
pub proof fn law_split_characters_cannot_be_read(text: Seq<char>)
    requires
        encode_utf8(without_hashes(text)).len() == 6,
    ensures
        ({
            let bytes = encode_utf8(without_hashes(text));
            &&& is_continuation_byte(bytes[2]) ==> !pieces_are_whole(text)
            &&& is_continuation_byte(bytes[4]) && hex_pair(bytes[0], bytes[1]) is Some
                ==> !pieces_are_whole(text)
        }),
{
    let bytes = encode_utf8(without_hashes(text));
    encode_utf8_valid_utf8(without_hashes(text));
    is_char_boundary_iff_not_is_continuation_byte(bytes, 2);
    is_char_boundary_iff_not_is_continuation_byte(bytes, 4);
}

} // verus!
