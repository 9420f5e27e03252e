//! Base64 with the standard alphabet and padding (RFC 4648, section 4).
use vstd::prelude::*;
use vstd::string::{StrSliceExecFns, StringExecFns};

verus! {

/// The sixty-four digits, in the order of their values.
pub const ALPHABET: &'static str =
    "ABCDEFGHIJKLMNOPQRSTUVWXYZabcdefghijklmnopqrstuvwxyz0123456789+/";

/// The digit of one value.
pub open spec fn figure(value: int) -> char
    recommends
        0 <= value < 64,
{
    ALPHABET@[value]
}

/// The number that three bytes make, the first of them the highest.
pub open spec fn group(first: u8, second: u8, third: u8) -> int {
    first * 65536 + second * 256 + third
}

/// Bytes in base64: each three of them as four digits, and what is left at
/// the end filled up with `=`.
pub open spec fn encoded(bytes: Seq<u8>) -> Seq<char>
    decreases bytes.len(),
{
    if bytes.len() == 0 {
        seq![]
    } else if bytes.len() == 1 {
        let n = group(bytes[0], 0, 0);
        seq![figure(n / 262144), figure(n / 4096 % 64), '=', '=']
    } else if bytes.len() == 2 {
        let n = group(bytes[0], bytes[1], 0);
        seq![figure(n / 262144), figure(n / 4096 % 64), figure(n / 64 % 64), '=']
    } else {
        let n = group(bytes[0], bytes[1], bytes[2]);
        seq![figure(n / 262144), figure(n / 4096 % 64), figure(n / 64 % 64), figure(n % 64)]
            + encoded(bytes.skip(3))
    }
}

/// The value of one digit.
pub open spec fn figure_value(digit: char) -> int {
    if 'A' <= digit <= 'Z' {
        digit as int - 'A' as int
    } else if 'a' <= digit <= 'z' {
        digit as int - 'a' as int + 26
    } else if '0' <= digit <= '9' {
        digit as int - '0' as int + 52
    } else if digit == '+' {
        62
    } else {
        63
    }
}

/// The bytes that a text in base64 stands for: each four digits as three
/// bytes, or as two or one where they end in `=`.
pub open spec fn decoded(text: Seq<char>) -> Seq<u8>
    decreases text.len(),
{
    if text.len() < 4 {
        seq![]
    } else {
        let n = figure_value(text[0]) * 262144 + figure_value(text[1]) * 4096;
        if text[2] == '=' {
            seq![(n / 65536) as u8]
        } else {
            let n = n + figure_value(text[2]) * 64;
            if text[3] == '=' {
                seq![(n / 65536) as u8, (n / 256 % 256) as u8]
            } else {
                let n = n + figure_value(text[3]);
                seq![(n / 65536) as u8, (n / 256 % 256) as u8, (n % 256) as u8] + decoded(
                    text.skip(4),
                )
            }
        }
    }
}

proof fn lemma_figure_value(value: int)
    requires
        0 <= value < 64,
    ensures
        figure_value(figure(value)) == value,
        figure(value) != '=',
{
    reveal_strlit("ABCDEFGHIJKLMNOPQRSTUVWXYZabcdefghijklmnopqrstuvwxyz0123456789+/");
}

proof fn lemma_regrouped(n: u32, first: u8, second: u8, third: u8)
    by (bit_vector)
    requires
        n == first * 65536 + second * 256 + third,
    ensures
        n / 262144 < 64,
        (n / 262144) * 262144 + (n / 4096 % 64) * 4096 + (n / 64 % 64) * 64 + n % 64 == n,
        third == 0 ==> n % 64 == 0,
        second == 0 && third == 0 ==> n / 64 % 64 == 0,
        n / 65536 == first,
        n / 256 % 256 == second,
        n % 256 == third,
{
}

/// Decoding gives back the bytes that were encoded.
pub proof fn decoding_undoes_encoding(bytes: Seq<u8>)
    ensures
        decoded(encoded(bytes)) == bytes,
    decreases bytes.len(),
{
    if bytes.len() > 0 {
        let second = if bytes.len() > 1 {
            bytes[1]
        } else {
            0
        };
        let third = if bytes.len() > 2 {
            bytes[2]
        } else {
            0
        };
        let n = group(bytes[0], second, third);
        lemma_regrouped(n as u32, bytes[0], second, third);
        lemma_figure_value(n / 262144);
        lemma_figure_value(n / 4096 % 64);
        lemma_figure_value(n / 64 % 64);
        lemma_figure_value(n % 64);
        let text = encoded(bytes);
        if bytes.len() > 2 {
            decoding_undoes_encoding(bytes.skip(3));
            assert(text.skip(4) =~= encoded(bytes.skip(3)));
            assert(decoded(text) == seq![bytes[0], second, third] + decoded(text.skip(4)));
            assert(seq![bytes[0], second, third] + bytes.skip(3) =~= bytes);
        } else if bytes.len() == 2 {
            assert(decoded(text) == seq![bytes[0], second]);
            assert(seq![bytes[0], second] =~= bytes);
        } else {
            assert(decoded(text) == seq![bytes[0]]);
            assert(seq![bytes[0]] =~= bytes);
        }
    }
}

fn figure_text(value: u32) -> (text: &'static str)
    requires
        value < 64,
    ensures
        text@ == seq![figure(value as int)],
{
    proof {
        reveal_strlit("ABCDEFGHIJKLMNOPQRSTUVWXYZabcdefghijklmnopqrstuvwxyz0123456789+/");
    }
    let at: usize = value as usize;
    let text = ALPHABET.substring_ascii(at, at + 1);
    assert(text@ =~= seq![figure(value as int)]);
    text
}

/// Bytes in base64.
pub fn encode(bytes: &[u8]) -> (text: String)
    ensures
        text@ == encoded(bytes@),
{
    let mut text = String::new();
    let mut i: usize = 0;
    let length: usize = bytes.len();
    assert(bytes@.skip(0) =~= bytes@);
    while i < length
        invariant
            i <= length,
            length == bytes@.len(),
            encoded(bytes@) == text@ + encoded(bytes@.skip(i as int)),
        decreases length - i,
    {
        let ghost before = text@;
        let ghost rest = bytes@.skip(i as int);
        let left: usize = length - i;
        let first: u32 = bytes[i] as u32;
        let second: u32 = if left > 1 {
            bytes[i + 1] as u32
        } else {
            0
        };
        let third: u32 = if left > 2 {
            bytes[i + 2] as u32
        } else {
            0
        };
        let n: u32 = first * 65536 + second * 256 + third;
        text.append(figure_text(n / 262144));
        text.append(figure_text(n / 4096 % 64));
        if left > 1 {
            text.append(figure_text(n / 64 % 64));
        } else {
            text.append("=");
        }
        if left > 2 {
            text.append(figure_text(n % 64));
        } else {
            text.append("=");
        }
        proof {
            reveal_strlit("=");
            assert("="@ =~= seq!['=']);
            assert(rest.len() == left);
            if left > 2 {
                assert(rest.skip(3) =~= bytes@.skip(i + 3));
                assert(text@ + encoded(rest.skip(3)) =~= before + encoded(rest));
            } else {
                assert(text@ =~= before + encoded(rest));
                assert(encoded(bytes@.skip(length as int)) =~= seq![]);
            }
        }
        i = if left > 2 {
            i + 3
        } else {
            length
        };
    }
    assert(encoded(bytes@.skip(i as int)) =~= seq![]);
    text
}

/// Sixty-four digits: the capital letters, the small ones, the decimal digits,
/// `+` and `/`.
pub open spec fn is_digit_of(digit: char, value: int) -> bool {
    &&& 0 <= value < 26 ==> digit as int == 'A' as int + value
    &&& 26 <= value < 52 ==> digit as int == 'a' as int + (value - 26)
    &&& 52 <= value < 62 ==> digit as int == '0' as int + (value - 52)
    &&& value == 62 ==> digit == '+'
    &&& value == 63 ==> digit == '/'
}

proof fn lemma_figure_is_digit(value: int)
    requires
        0 <= value < 64,
    ensures
        is_digit_of(figure(value), value),
{
    reveal_strlit("ABCDEFGHIJKLMNOPQRSTUVWXYZabcdefghijklmnopqrstuvwxyz0123456789+/");
}

proof fn lemma_sixes(n: u32, first: u32, second: u32, third: u32)
    by (bit_vector)
    requires
        first < 256,
        second < 256,
        third < 256,
        n == first * 65536 + second * 256 + third,
    ensures
        n / 262144 == first / 4,
        n / 4096 % 64 == first % 4 * 16 + second / 16,
        n / 64 % 64 == second % 16 * 4 + third / 64,
        n % 64 == third % 64,
{
}

/// The first three bytes are four digits of six bits each, the first byte's
/// highest bits first; of two bytes the last digit is `=`, and of one the last
/// two; and what follows three bytes is encoded after their digits.
pub proof fn three_bytes_are_four_digits(bytes: Seq<u8>)
    ensures
        bytes.len() == 0 ==> encoded(bytes).len() == 0,
        bytes.len() > 0 ==> {
            let text = encoded(bytes);
            let first = bytes[0] as int;
            let second = if bytes.len() > 1 {
                bytes[1] as int
            } else {
                0
            };
            let third = if bytes.len() > 2 {
                bytes[2] as int
            } else {
                0
            };
            &&& text.len() >= 4
            &&& is_digit_of(text[0], first / 4)
            &&& is_digit_of(text[1], first % 4 * 16 + second / 16)
            &&& if bytes.len() > 1 {
                is_digit_of(text[2], second % 16 * 4 + third / 64)
            } else {
                text[2] == '='
            }
            &&& if bytes.len() > 2 {
                is_digit_of(text[3], third % 64)
            } else {
                text[3] == '='
            }
            &&& if bytes.len() > 3 {
                text.skip(4) == encoded(bytes.skip(3))
            } else {
                text.len() == 4
            }
        },
{
    if bytes.len() > 0 {
        let second = if bytes.len() > 1 {
            bytes[1]
        } else {
            0
        };
        let third = if bytes.len() > 2 {
            bytes[2]
        } else {
            0
        };
        let n = group(bytes[0], second, third);
        lemma_sixes(n as u32, bytes[0] as u32, second as u32, third as u32);
        lemma_regrouped(n as u32, bytes[0], second, third);
        lemma_figure_is_digit(n / 262144);
        lemma_figure_is_digit(n / 4096 % 64);
        lemma_figure_is_digit(n / 64 % 64);
        lemma_figure_is_digit(n % 64);
        if bytes.len() > 2 {
            assert(encoded(bytes).skip(4) =~= encoded(bytes.skip(3)));
            if bytes.len() == 3 {
                assert(encoded(bytes.skip(3)) =~= seq![]);
            }
        }
    }
}

} // verus!
