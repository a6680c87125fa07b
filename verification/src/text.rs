//! Verified rendering of numbers as decimal and hexadecimal text, and a
//! substring test. Every exec function returns exactly the character
//! sequence its spec function describes.

use vstd::prelude::*;

verus! {

/// The character for one decimal digit value.
pub open spec fn spec_dec_digit(d: nat) -> char
    recommends
        d < 10,
{
    if d == 0 {
        '0'
    } else if d == 1 {
        '1'
    } else if d == 2 {
        '2'
    } else if d == 3 {
        '3'
    } else if d == 4 {
        '4'
    } else if d == 5 {
        '5'
    } else if d == 6 {
        '6'
    } else if d == 7 {
        '7'
    } else if d == 8 {
        '8'
    } else {
        '9'
    }
}

/// Decimal rendering of a natural number, most significant digit first,
/// without leading zeros (zero itself renders as "0").
pub open spec fn spec_dec(n: nat) -> Seq<char>
    decreases n,
{
    if n < 10 {
        seq![spec_dec_digit(n)]
    } else {
        spec_dec(n / 10) + seq![spec_dec_digit(n % 10)]
    }
}

/// The character for one hexadecimal digit value, lower case.
pub open spec fn spec_hex_digit(d: nat) -> char
    recommends
        d < 16,
{
    if d < 10 {
        spec_dec_digit(d)
    } else if d == 10 {
        'a'
    } else if d == 11 {
        'b'
    } else if d == 12 {
        'c'
    } else if d == 13 {
        'd'
    } else if d == 14 {
        'e'
    } else {
        'f'
    }
}

/// Hexadecimal rendering of a natural number padded with leading zeros to
/// exactly `width` digits (digits above the width are cut off).
pub open spec fn spec_hex_pad(n: nat, width: nat) -> Seq<char>
    decreases width,
{
    if width == 0 {
        Seq::empty()
    } else {
        spec_hex_pad(n / 16, (width - 1) as nat) + seq![spec_hex_digit(n % 16)]
    }
}

/// Hexadecimal rendering without padding (zero renders as "0").
pub open spec fn spec_hex(n: nat) -> Seq<char>
    decreases n,
{
    if n < 16 {
        seq![spec_hex_digit(n)]
    } else {
        spec_hex(n / 16) + seq![spec_hex_digit(n % 16)]
    }
}

/// One decimal digit as a string slice.
fn dec_digit_str(d: u8) -> (r: &'static str)
    requires
        d < 10,
    ensures
        r@ == seq![spec_dec_digit(d as nat)],
{
    if d == 0 {
        proof {
            reveal_strlit("0");
            assert("0"@ =~= seq![spec_dec_digit(0)]);
        }
        "0"
    } else if d == 1 {
        proof {
            reveal_strlit("1");
            assert("1"@ =~= seq![spec_dec_digit(1)]);
        }
        "1"
    } else if d == 2 {
        proof {
            reveal_strlit("2");
            assert("2"@ =~= seq![spec_dec_digit(2)]);
        }
        "2"
    } else if d == 3 {
        proof {
            reveal_strlit("3");
            assert("3"@ =~= seq![spec_dec_digit(3)]);
        }
        "3"
    } else if d == 4 {
        proof {
            reveal_strlit("4");
            assert("4"@ =~= seq![spec_dec_digit(4)]);
        }
        "4"
    } else if d == 5 {
        proof {
            reveal_strlit("5");
            assert("5"@ =~= seq![spec_dec_digit(5)]);
        }
        "5"
    } else if d == 6 {
        proof {
            reveal_strlit("6");
            assert("6"@ =~= seq![spec_dec_digit(6)]);
        }
        "6"
    } else if d == 7 {
        proof {
            reveal_strlit("7");
            assert("7"@ =~= seq![spec_dec_digit(7)]);
        }
        "7"
    } else if d == 8 {
        proof {
            reveal_strlit("8");
            assert("8"@ =~= seq![spec_dec_digit(8)]);
        }
        "8"
    } else {
        proof {
            reveal_strlit("9");
            assert("9"@ =~= seq![spec_dec_digit(9)]);
        }
        "9"
    }
}

/// One hexadecimal digit as a string slice.
fn hex_digit_str(d: u8) -> (r: &'static str)
    requires
        d < 16,
    ensures
        r@ == seq![spec_hex_digit(d as nat)],
{
    if d < 10 {
        dec_digit_str(d)
    } else if d == 10 {
        proof {
            reveal_strlit("a");
            assert("a"@ =~= seq![spec_hex_digit(10)]);
        }
        "a"
    } else if d == 11 {
        proof {
            reveal_strlit("b");
            assert("b"@ =~= seq![spec_hex_digit(11)]);
        }
        "b"
    } else if d == 12 {
        proof {
            reveal_strlit("c");
            assert("c"@ =~= seq![spec_hex_digit(12)]);
        }
        "c"
    } else if d == 13 {
        proof {
            reveal_strlit("d");
            assert("d"@ =~= seq![spec_hex_digit(13)]);
        }
        "d"
    } else if d == 14 {
        proof {
            reveal_strlit("e");
            assert("e"@ =~= seq![spec_hex_digit(14)]);
        }
        "e"
    } else {
        proof {
            reveal_strlit("f");
            assert("f"@ =~= seq![spec_hex_digit(15)]);
        }
        "f"
    }
}

/// Decimal rendering of a 64-bit number.
pub fn dec_u64(n: u64) -> (r: String)
    ensures
        r@ == spec_dec(n as nat),
    decreases n,
{
    if n < 10 {
        String::from_str(dec_digit_str(n as u8))
    } else {
        let q: u64 = n / 10;
        let d: u8 = (n % 10) as u8;
        let s = dec_u64(q);
        s.concat(dec_digit_str(d))
    }
}

/// Hexadecimal rendering of a 32-bit number, zero-padded to `width` digits.
pub fn hex_pad_u32(n: u32, width: usize) -> (r: String)
    ensures
        r@ == spec_hex_pad(n as nat, width as nat),
    decreases width,
{
    if width == 0 {
        let r = String::new();
        proof {
            assert(r@ =~= spec_hex_pad(n as nat, 0));
        }
        r
    } else {
        let q: u32 = n / 16;
        let d: u8 = (n % 16) as u8;
        let s = hex_pad_u32(q, width - 1);
        s.concat(hex_digit_str(d))
    }
}

/// Hexadecimal rendering of a 16-bit number without padding.
pub fn hex_u16(n: u16) -> (r: String)
    ensures
        r@ == spec_hex(n as nat),
    decreases n,
{
    if n < 16 {
        String::from_str(hex_digit_str(n as u8))
    } else {
        let q: u16 = n / 16;
        let d: u8 = (n % 16) as u8;
        let s = hex_u16(q);
        s.concat(hex_digit_str(d))
    }
}

/// True when `n` occurs in `h` starting at position `i`.
pub open spec fn spec_contains_at(h: Seq<char>, n: Seq<char>, i: int) -> bool {
    0 <= i && i + n.len() <= h.len() && h.subrange(i, i + n.len()) == n
}

/// True when `n` occurs somewhere in `h`.
pub open spec fn spec_contains(h: Seq<char>, n: Seq<char>) -> bool {
    exists|i: int| spec_contains_at(h, n, i)
}

/// Substring test over arbitrary (possibly non-ASCII) strings.
pub fn str_contains(hay: &str, needle: &str) -> (r: bool)
    ensures
        r == spec_contains(hay@, needle@),
{
    let hl: usize = hay.unicode_len();
    let nl: usize = needle.unicode_len();
    if nl > hl {
        proof {
            assert(forall|i: int| !spec_contains_at(hay@, needle@, i));
        }
        return false;
    }
    let mut i: usize = 0;
    while i <= hl - nl
        invariant
            nl <= hl,
            hl == hay@.len(),
            nl == needle@.len(),
            i <= hl - nl + 1,
            forall|k: int| 0 <= k < i ==> !spec_contains_at(hay@, needle@, k),
        decreases hl - nl - i + 1,
    {
        let mut j: usize = 0;
        let mut matched: bool = true;
        while j < nl
            invariant
                nl <= hl,
                hl == hay@.len(),
                nl == needle@.len(),
                i + nl <= hl,
                j <= nl,
                matched || j == nl,
                matched == (forall|k: int| 0 <= k < j ==> hay@[i + k] == needle@[k]),
            decreases nl - j,
        {
            let hc = hay.get_char(i + j);
            let nc = needle.get_char(j);
            if hc != nc {
                matched = false;
                proof {
                    assert(hay@[i + j as int] != needle@[j as int]);
                }
                j = nl;
            } else {
                proof {
                    assert(forall|k: int| 0 <= k < j + 1 ==> hay@[i + k] == needle@[k]);
                }
                j = j + 1;
            }
        }
        if matched {
            proof {
                assert(hay@.subrange(i as int, i + needle@.len()) =~= needle@);
                assert(spec_contains_at(hay@, needle@, i as int));
            }
            return true;
        }
        proof {
            assert(!spec_contains_at(hay@, needle@, i as int));
        }
        i = i + 1;
    }
    proof {
        assert(forall|k: int| i <= k ==> !spec_contains_at(hay@, needle@, k));
    }
    false
}

} // verus!
