//! Functions to convert a byte-string to and from hexadecimal form.

use vstd::prelude::*;
use vstd::string::StringExecFns;

verus! {

/// The lower-case character of one hexadecimal digit below 16.
pub open spec fn hex_digit(n: u8) -> char
    recommends
        n < 16,
{
    if n == 0 {
        '0'
    } else if n == 1 {
        '1'
    } else if n == 2 {
        '2'
    } else if n == 3 {
        '3'
    } else if n == 4 {
        '4'
    } else if n == 5 {
        '5'
    } else if n == 6 {
        '6'
    } else if n == 7 {
        '7'
    } else if n == 8 {
        '8'
    } else if n == 9 {
        '9'
    } else if n == 10 {
        'a'
    } else if n == 11 {
        'b'
    } else if n == 12 {
        'c'
    } else if n == 13 {
        'd'
    } else if n == 14 {
        'e'
    } else {
        'f'
    }
}

/// The hexadecimal form of a byte sequence: two digits per byte, high
/// digit first.
pub open spec fn hex_chars(s: Seq<u8>) -> Seq<char> {
    Seq::new(
        2 * s.len(),
        |i: int|
            if i % 2 == 0 {
                hex_digit(s[i / 2] / 16)
            } else {
                hex_digit(s[i / 2] % 16)
            },
    )
}

/// The one-character string of one hexadecimal digit.
fn digit_str(n: u8) -> (r: &'static str)
    requires
        n < 16,
    ensures
        r@ == seq![hex_digit(n)],
{
    if n == 0 {
        proof {
            reveal_strlit("0");
        }
        "0"
    } else if n == 1 {
        proof {
            reveal_strlit("1");
        }
        "1"
    } else if n == 2 {
        proof {
            reveal_strlit("2");
        }
        "2"
    } else if n == 3 {
        proof {
            reveal_strlit("3");
        }
        "3"
    } else if n == 4 {
        proof {
            reveal_strlit("4");
        }
        "4"
    } else if n == 5 {
        proof {
            reveal_strlit("5");
        }
        "5"
    } else if n == 6 {
        proof {
            reveal_strlit("6");
        }
        "6"
    } else if n == 7 {
        proof {
            reveal_strlit("7");
        }
        "7"
    } else if n == 8 {
        proof {
            reveal_strlit("8");
        }
        "8"
    } else if n == 9 {
        proof {
            reveal_strlit("9");
        }
        "9"
    } else if n == 10 {
        proof {
            reveal_strlit("a");
        }
        "a"
    } else if n == 11 {
        proof {
            reveal_strlit("b");
        }
        "b"
    } else if n == 12 {
        proof {
            reveal_strlit("c");
        }
        "c"
    } else if n == 13 {
        proof {
            reveal_strlit("d");
        }
        "d"
    } else if n == 14 {
        proof {
            reveal_strlit("e");
        }
        "e"
    } else {
        proof {
            reveal_strlit("f");
        }
        "f"
    }
}

/// Represent a sequence of bytes as an hexadecimal string.
pub fn to_hex(bytes: &[u8]) -> (r: String)
    ensures
        r@ == hex_chars(bytes@),
{
    let mut result = String::new();
    let n = bytes.len();
    let mut i: usize = 0;
    while i < n
        invariant
            i <= n,
            n == bytes@.len(),
            result@ == hex_chars(bytes@.take(i as int)),
        decreases n - i,
    {
        let b = bytes[i];
        result.append(digit_str(b / 16));
        result.append(digit_str(b % 16));
        proof {
            assert(hex_chars(bytes@.take(i + 1)) =~= hex_chars(bytes@.take(i as int)) + seq![
                hex_digit(b / 16),
                hex_digit(b % 16),
            ]);
        }
        i = i + 1;
    }
    proof {
        assert(bytes@.take(n as int) =~= bytes@);
    }
    result
}

/// Whether a character is one hexadecimal digit.
pub open spec fn is_hex_char(c: char) -> bool {
    ('0' <= c && c <= '9') || ('a' <= c && c <= 'f') || ('A' <= c && c <= 'F')
}

/// The value of one hexadecimal digit character.
pub open spec fn hex_value(c: char) -> u8
    recommends
        is_hex_char(c),
{
    if '0' <= c && c <= '9' {
        ((c as int) - ('0' as int)) as u8
    } else if 'a' <= c && c <= 'f' {
        ((c as int) - ('a' as int) + 10) as u8
    } else {
        ((c as int) - ('A' as int) + 10) as u8
    }
}

/// Convert a hexadecimal string into a byte array.  For use in
/// constants; a string that is not hexadecimal digits of exactly the
/// array's doubled length is rejected at the contract.
pub fn into_bytes<const N: usize>(s: &str) -> (r: [u8; N])
    requires
        s@.len() == 2 * N,
        forall|i: int| 0 <= i < s@.len() ==> is_hex_char(#[trigger] s@[i]),
    ensures
        forall|i: int|
            0 <= i < N ==> r@[i] == 16 * hex_value(s@[2 * i]) + hex_value(s@[2 * i + 1]),
{
    proof {
        assert(vstd::utf8::is_ascii_chars(s@)) by {
            assert forall|i: int| 0 <= i < s@.len() implies '\0' <= #[trigger] s@[i]
                <= '\u{7f}' by {
                assert(is_hex_char(s@[i]));
            };
        };
        vstd::string::is_ascii_spec_bytes(s);
    }
    let bytes = s.as_bytes();
    let blen = bytes.len();
    let mut r: [u8; N] = [0; N];
    let mut i: usize = 0;
    while i < N
        invariant
            i <= N,
            blen == bytes@.len(),
            bytes@.len() == s@.len(),
            s@.len() == 2 * N,
            forall|j: int| 0 <= j < s@.len() ==> is_hex_char(#[trigger] s@[j]),
            forall|j: int| 0 <= j < s@.len() ==> bytes@[j] == s@[j] as u8,
            r@.len() == N,
            forall|j: int|
                0 <= j < i ==> r@[j] == 16 * hex_value(s@[2 * j]) + hex_value(s@[2 * j + 1]),
        decreases N - i,
    {
        let bh = bytes[2 * i];
        let bl = bytes[2 * i + 1];
        let hi: u8 = if 48 <= bh && bh <= 57 {
            bh - 48
        } else if 97 <= bh && bh <= 102 {
            bh - 97 + 10
        } else {
            bh - 65 + 10
        };
        let lo: u8 = if 48 <= bl && bl <= 57 {
            bl - 48
        } else if 97 <= bl && bl <= 102 {
            bl - 97 + 10
        } else {
            bl - 65 + 10
        };
        proof {
            assert(hi == hex_value(s@[2 * i]));
            assert(lo == hex_value(s@[2 * i + 1]));
        }
        r[i] = 16 * hi + lo;
        i = i + 1;
    }
    r
}

} // verus!
