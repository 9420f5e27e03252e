//! Percent-encoding, the way a form body carries a value (RFC 3986, section
//! 2.1): letters, digits and `-`, `.`, `_`, `~` stand for themselves, and
//! every other byte is `%` and its two hexadecimal digits.
use vstd::prelude::*;

verus! {

/// The byte of `%`.
pub const PERCENT: u8 = 0x25;

/// Whether a byte stands for itself: RFC 3986's unreserved characters.
pub open spec fn unreserved(byte: u8) -> bool {
    ||| 0x41 <= byte <= 0x5a
    ||| 0x61 <= byte <= 0x7a
    ||| 0x30 <= byte <= 0x39
    ||| byte == 0x2d
    ||| byte == 0x2e
    ||| byte == 0x5f
    ||| byte == 0x7e
}

/// The upper-case hexadecimal digit of a value below sixteen.
pub open spec fn hex_digit(value: u8) -> u8 {
    if value < 10 {
        (0x30 + value) as u8
    } else {
        (0x41 + (value - 10)) as u8
    }
}

/// One byte, encoded.
pub open spec fn escaped(byte: u8) -> Seq<u8> {
    if unreserved(byte) {
        seq![byte]
    } else {
        seq![PERCENT, hex_digit(byte / 16), hex_digit(byte % 16)]
    }
}

/// Bytes, encoded one after the other.
pub open spec fn encoded(bytes: Seq<u8>) -> Seq<u8>
    decreases bytes.len(),
{
    if bytes.len() == 0 {
        seq![]
    } else {
        escaped(bytes.first()) + encoded(bytes.drop_first())
    }
}

/// The value of a hexadecimal digit of [`hex_digit`].
pub open spec fn hex_value(digit: u8) -> int {
    if digit < 0x41 {
        digit - 0x30
    } else {
        digit - 0x41 + 10
    }
}

/// What a reader of the form makes of an encoded value.
pub open spec fn decoded(text: Seq<u8>) -> Seq<u8>
    decreases text.len(),
{
    if text.len() == 0 {
        seq![]
    } else if text.first() == PERCENT && text.len() >= 3 {
        seq![(hex_value(text[1]) * 16 + hex_value(text[2])) as u8] + decoded(text.skip(3))
    } else {
        seq![text.first()] + decoded(text.drop_first())
    }
}

fn is_unreserved(byte: u8) -> (yes: bool)
    ensures
        yes == unreserved(byte),
{
    (0x41 <= byte && byte <= 0x5a) || (0x61 <= byte && byte <= 0x7a) || (0x30 <= byte && byte
        <= 0x39) || byte == 0x2d || byte == 0x2e || byte == 0x5f || byte == 0x7e
}

fn hex(value: u8) -> (digit: u8)
    requires
        value < 16,
    ensures
        digit == hex_digit(value),
{
    if value < 10 {
        0x30 + value
    } else {
        0x41 + (value - 10)
    }
}

/// The UTF-8 bytes of `text`, percent-encoded.
pub fn encode(text: &str) -> (whole: Vec<u8>)
    ensures
        whole@ == encoded(vstd::utf8::encode_utf8(text@)),
{
    let bytes = text.as_bytes();
    let mut whole: Vec<u8> = Vec::new();
    let mut i: usize = 0;
    assert(bytes@.skip(0) =~= bytes@);
    while i < bytes.len()
        invariant
            i <= bytes.len(),
            encoded(bytes@) == whole@ + encoded(bytes@.skip(i as int)),
        decreases bytes.len() - i,
    {
        let byte: u8 = bytes[i];
        let ghost before = whole@;
        if is_unreserved(byte) {
            whole.push(byte);
        } else {
            whole.push(PERCENT);
            whole.push(hex(byte / 16));
            whole.push(hex(byte % 16));
        }
        assert(whole@ =~= before + escaped(byte));
        assert(bytes@.skip(i as int).drop_first() =~= bytes@.skip(i + 1));
        assert(encoded(bytes@) =~= whole@ + encoded(bytes@.skip(i + 1)));
        i = i + 1;
    }
    assert(encoded(bytes@.skip(i as int)) =~= seq![]);
    whole
}

/// Reading an encoded value gives back the bytes that were encoded.
pub proof fn decoding_undoes_encoding(bytes: Seq<u8>)
    ensures
        decoded(encoded(bytes)) == bytes,
    decreases bytes.len(),
{
    if bytes.len() > 0 {
        let byte = bytes.first();
        let rest = encoded(bytes.drop_first());
        let whole = encoded(bytes);
        decoding_undoes_encoding(bytes.drop_first());
        if unreserved(byte) {
            assert(whole.drop_first() =~= rest);
            assert(decoded(whole) =~= bytes);
        } else {
            assert(whole.skip(3) =~= rest);
            assert(hex_value(hex_digit(byte / 16)) == byte / 16);
            assert(hex_value(hex_digit(byte % 16)) == byte % 16);
            assert(decoded(whole) =~= bytes);
        }
    }
}

/// An encoded value holds nothing but unreserved bytes and `%`: none of the
/// punctuation that a form gives a meaning.
pub proof fn encoding_leaves_no_punctuation(bytes: Seq<u8>, i: int)
    requires
        0 <= i < encoded(bytes).len(),
    ensures
        unreserved(encoded(bytes)[i]) || encoded(bytes)[i] == PERCENT,
    decreases bytes.len(),
{
    let head = escaped(bytes.first());
    if i >= head.len() {
        encoding_leaves_no_punctuation(bytes.drop_first(), i - head.len());
    }
}

/// Bytes are encoded one by one: encoding two runs of them is encoding the one
/// and then the other.
pub proof fn encoding_goes_byte_by_byte(left: Seq<u8>, right: Seq<u8>)
    ensures
        encoded(left + right) == encoded(left) + encoded(right),
    decreases left.len(),
{
    if left.len() == 0 {
        assert(left + right =~= right);
        assert(encoded(left) + encoded(right) =~= encoded(right));
    } else {
        encoding_goes_byte_by_byte(left.drop_first(), right);
        assert((left + right).drop_first() =~= left.drop_first() + right);
        assert((left + right).first() == left.first());
        assert(encoded(left + right) =~= encoded(left) + encoded(right));
    }
}

/// A letter, a digit, `-`, `.`, `_` or `~` stands for itself, and every other
/// byte is `%` and its two digits in base sixteen, the higher one first.
pub proof fn one_byte_is_encoded_so(byte: u8)
    ensures
        ({
            let c = byte as char;
            let code = encoded(seq![byte]);
            if 'A' <= c <= 'Z' || 'a' <= c <= 'z' || '0' <= c <= '9' || c == '-' || c == '.' || c
                == '_' || c == '~' {
                code == seq![byte]
            } else {
                &&& code.len() == 3
                &&& code[0] as char == '%'
                &&& code[1] as char == "0123456789ABCDEF"@[byte as int / 16]
                &&& code[2] as char == "0123456789ABCDEF"@[byte as int % 16]
            }
        }),
{
    reveal_strlit("0123456789ABCDEF");
    assert(seq![byte].drop_first() =~= seq![]);
    assert(encoded(seq![byte].drop_first()) =~= seq![]);
    assert(encoded(seq![byte]) =~= escaped(byte));
}

} // verus!
