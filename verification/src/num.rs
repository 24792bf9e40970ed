//! Decimal and hexadecimal rendering and parsing of unsigned numbers,
//! over bytes and over `String`s, with exact specifications.

use vstd::prelude::*;

use crate::ascii::{is_digit_byte, is_digits, is_hex_digit_byte};

verus! {

/// The byte of one decimal digit.
pub open spec fn dec_digit(d: nat) -> u8
    recommends
        d < 10,
{
    ('0' as u8 + d) as u8
}

/// The byte of one lower-case hexadecimal digit.
pub open spec fn hex_digit(d: nat) -> u8
    recommends
        d < 16,
{
    if d < 10 {
        ('0' as u8 + d) as u8
    } else {
        ('a' as u8 + (d - 10)) as u8
    }
}

/// The shortest decimal rendering of `n`, most significant digit
/// first.
pub open spec fn dec_seq(n: nat) -> Seq<u8>
    decreases n,
{
    if n < 10 {
        seq![dec_digit(n)]
    } else {
        dec_seq(n / 10).push(dec_digit(n % 10))
    }
}

/// The shortest lower-case hexadecimal rendering of `n`.
pub open spec fn hex_seq(n: nat) -> Seq<u8>
    decreases n,
{
    if n < 16 {
        seq![hex_digit(n)]
    } else {
        hex_seq(n / 16).push(hex_digit(n % 16))
    }
}

/// The numeric value of a run of decimal digit bytes.
pub open spec fn dec_val(s: Seq<u8>) -> nat
    decreases s.len(),
{
    if s.len() == 0 {
        0
    } else {
        dec_val(s.drop_last()) * 10 + (if is_digit_byte(s.last()) {
            (s.last() - '0' as u8) as nat
        } else {
            0
        })
    }
}

/// The numeric value of one hexadecimal digit byte.
pub open spec fn hex_digit_val(b: u8) -> nat {
    if '0' as u8 <= b <= '9' as u8 {
        (b - '0' as u8) as nat
    } else if 'a' as u8 <= b <= 'f' as u8 {
        (b - 'a' as u8 + 10) as nat
    } else if 'A' as u8 <= b <= 'F' as u8 {
        (b - 'A' as u8 + 10) as nat
    } else {
        0
    }
}

/// The numeric value of a run of hexadecimal digit bytes.
pub open spec fn hex_val(s: Seq<u8>) -> nat
    decreases s.len(),
{
    if s.len() == 0 {
        0
    } else {
        hex_val(s.drop_last()) * 16 + hex_digit_val(s.last())
    }
}

/// Rendering then reading a number in decimal gives the number back.
pub proof fn lemma_dec_round_trip(n: nat)
    ensures
        dec_val(dec_seq(n)) == n,
        is_digits(dec_seq(n)),
    decreases n,
{
    if n < 10 {
        let s = dec_seq(n);
        assert(s =~= seq![dec_digit(n)]);
        assert(s.drop_last() =~= Seq::<u8>::empty());
        assert(s.last() == dec_digit(n));
        assert(is_digit_byte(dec_digit(n)));
        assert(dec_val(s) == dec_val(s.drop_last()) * 10 + n);
    } else {
        lemma_dec_round_trip(n / 10);
        let s = dec_seq(n);
        assert(s == dec_seq(n / 10).push(dec_digit(n % 10)));
        assert(s.drop_last() =~= dec_seq(n / 10));
        assert(s.last() == dec_digit(n % 10));
        assert(is_digit_byte(dec_digit(n % 10)));
        assert(dec_val(s) == dec_val(s.drop_last()) * 10 + n % 10);
        assert((n / 10) * 10 + n % 10 == n) by (nonlinear_arith);
        assert forall|i: int| 0 <= i < s.len() implies is_digit_byte(#[trigger] s[i]) by {
            if i < s.len() - 1 {
                assert(s[i] == dec_seq(n / 10)[i]);
            }
        }
    }
}

/// Rendering then reading a number in hexadecimal gives the number
/// back.
pub proof fn lemma_hex_round_trip(n: nat)
    ensures
        hex_val(hex_seq(n)) == n,
        hex_seq(n).len() > 0,
        forall|i: int| 0 <= i < hex_seq(n).len() ==> is_hex_digit_byte(#[trigger] hex_seq(n)[i]),
    decreases n,
{
    if n < 16 {
        let s = hex_seq(n);
        assert(s =~= seq![hex_digit(n)]);
        assert(s.drop_last() =~= Seq::<u8>::empty());
        assert(s.last() == hex_digit(n));
        assert(hex_digit_val(hex_digit(n)) == n);
        assert(hex_val(s) == hex_val(s.drop_last()) * 16 + hex_digit_val(s.last()));
    } else {
        lemma_hex_round_trip(n / 16);
        let s = hex_seq(n);
        assert(s.drop_last() =~= hex_seq(n / 16));
        assert(s.last() == hex_digit(n % 16));
        assert(hex_digit_val(hex_digit(n % 16)) == n % 16);
        assert(hex_val(s) == hex_val(s.drop_last()) * 16 + n % 16);
        assert((n / 16) * 16 + n % 16 == n) by (nonlinear_arith);
        assert forall|i: int| 0 <= i < s.len() implies is_hex_digit_byte(#[trigger] s[i]) by {
            if i < s.len() - 1 {
                assert(s[i] == hex_seq(n / 16)[i]);
            }
        }
    }
}

/// The decimal rendering of `n`, as bytes.
pub fn dec_bytes(n: usize) -> (r: Vec<u8>)
    ensures
        r@ =~= dec_seq(n as nat),
    decreases n,
{
    if n < 10 {
        let mut v: Vec<u8> = Vec::new();
        v.push('0' as u8 + (n as u8));
        v
    } else {
        let mut v = dec_bytes(n / 10);
        v.push('0' as u8 + ((n % 10) as u8));
        v
    }
}

/// The lower-case hexadecimal rendering of `n`, as bytes.
pub fn hex_bytes(n: usize) -> (r: Vec<u8>)
    ensures
        r@ =~= hex_seq(n as nat),
    decreases n,
{
    if n < 16 {
        let mut v: Vec<u8> = Vec::new();
        if n < 10 {
            v.push('0' as u8 + (n as u8));
        } else {
            v.push('a' as u8 + ((n - 10) as u8));
        }
        v
    } else {
        let mut v = hex_bytes(n / 16);
        let d = n % 16;
        if d < 10 {
            v.push('0' as u8 + (d as u8));
        } else {
            v.push('a' as u8 + ((d - 10) as u8));
        }
        v
    }
}

/// The decimal digits of `n`, as characters.
pub open spec fn dec_chars(n: nat) -> Seq<char> {
    dec_seq(n).map_values(|b: u8| b as char)
}

fn digit_str(d: usize) -> (r: &'static str)
    requires
        d < 10,
    ensures
        r@ =~= seq![dec_digit(d as nat) as char],
{
    proof {
        reveal_strlit("0");
        reveal_strlit("1");
        reveal_strlit("2");
        reveal_strlit("3");
        reveal_strlit("4");
        reveal_strlit("5");
        reveal_strlit("6");
        reveal_strlit("7");
        reveal_strlit("8");
        reveal_strlit("9");
    }
    match d {
        0 => "0",
        1 => "1",
        2 => "2",
        3 => "3",
        4 => "4",
        5 => "5",
        6 => "6",
        7 => "7",
        8 => "8",
        _ => "9",
    }
}

/// The decimal rendering of `n`, as a `String`.
pub fn dec_string(n: usize) -> (r: String)
    ensures
        r@ =~= dec_chars(n as nat),
    decreases n,
{
    if n < 10 {
        let s = String::from_str(digit_str(n));
        proof {
            assert(dec_seq(n as nat) =~= seq![dec_digit(n as nat)]);
        }
        s
    } else {
        let mut s = dec_string(n / 10);
        s.append(digit_str(n % 10));
        proof {
            assert(dec_chars(n as nat) =~= dec_chars((n / 10) as nat) + seq![
                dec_digit((n % 10) as nat) as char,
            ]);
        }
        s
    }
}

/// Reads a run of decimal digit bytes as a number; `None` when the
/// input is not a nonempty digit run or its value does not fit in
/// `usize`.
pub fn parse_dec(v: &[u8]) -> (r: Option<usize>)
    ensures
        match r {
            Some(n) => is_digits(v@) && n == dec_val(v@),
            None => !is_digits(v@) || dec_val(v@) > usize::MAX,
        },
{
    if v.len() == 0 {
        return None;
    }
    let mut acc: usize = 0;
    let mut i: usize = 0;
    while i < v.len()
        invariant
            i <= v@.len(),
            v@.len() > 0,
            forall|j: int| 0 <= j < i ==> is_digit_byte(#[trigger] v@[j]),
            acc == dec_val(v@.take(i as int)),
        decreases v@.len() - i,
    {
        let b = v[i];
        if !(('0' as u8) <= b && b <= ('9' as u8)) {
            return None;
        }
        let d = (b - ('0' as u8)) as usize;
        let shifted = match acc.checked_mul(10) {
            Some(x) => x,
            None => {
                proof {
                    lemma_dec_val_grows(v@, i as int);
                }
                return None;
            },
        };
        acc = match shifted.checked_add(d) {
            Some(x) => x,
            None => {
                proof {
                    lemma_dec_val_grows(v@, i as int);
                }
                return None;
            },
        };
        i = i + 1;
        proof {
            assert(v@.take(i as int).drop_last() =~= v@.take(i - 1));
        }
    }
    proof {
        assert(v@.take(v@.len() as int) =~= v@);
    }
    Some(acc)
}

/// A longer digit prefix never has a smaller value.
proof fn lemma_dec_val_grows(s: Seq<u8>, i: int)
    requires
        0 <= i < s.len(),
    ensures
        dec_val(s) >= dec_val(s.take(i)) * 10 + (if is_digit_byte(s[i]) {
            (s[i] - '0' as u8) as nat
        } else {
            0
        }),
    decreases s.len() - i,
{
    if i == s.len() - 1 {
        assert(s.take(i) =~= s.drop_last());
    } else {
        lemma_dec_val_grows(s, i + 1);
        assert(s.take(i + 1).drop_last() =~= s.take(i));
        assert(dec_val(s.take(i + 1)) >= dec_val(s.take(i)) * 10 + (if is_digit_byte(s[i]) {
            (s[i] - '0' as u8) as nat
        } else {
            0
        }));
    }
}

/// Reads a run of hexadecimal digit bytes as a number; `None` when the
/// input is not a nonempty hexadecimal run or its value does not fit
/// in `usize`.
pub fn parse_hex(v: &[u8]) -> (r: Option<usize>)
    ensures
        match r {
            Some(n) => v@.len() > 0 && (forall|i: int|
                0 <= i < v@.len() ==> is_hex_digit_byte(#[trigger] v@[i])) && n == hex_val(v@),
            None => v@.len() == 0 || (exists|i: int|
                0 <= i < v@.len() && !is_hex_digit_byte(#[trigger] v@[i])) || hex_val(v@)
                > usize::MAX,
        },
{
    if v.len() == 0 {
        return None;
    }
    let mut acc: usize = 0;
    let mut i: usize = 0;
    while i < v.len()
        invariant
            i <= v@.len(),
            v@.len() > 0,
            forall|j: int| 0 <= j < i ==> is_hex_digit_byte(#[trigger] v@[j]),
            acc == hex_val(v@.take(i as int)),
        decreases v@.len() - i,
    {
        let b = v[i];
        let d: usize;
        if ('0' as u8) <= b && b <= ('9' as u8) {
            d = (b - ('0' as u8)) as usize;
        } else if ('a' as u8) <= b && b <= ('f' as u8) {
            d = (b - ('a' as u8)) as usize + 10;
        } else if ('A' as u8) <= b && b <= ('F' as u8) {
            d = (b - ('A' as u8)) as usize + 10;
        } else {
            return None;
        }
        let shifted = match acc.checked_mul(16) {
            Some(x) => x,
            None => {
                proof {
                    lemma_hex_val_grows(v@, i as int);
                }
                return None;
            },
        };
        acc = match shifted.checked_add(d) {
            Some(x) => x,
            None => {
                proof {
                    lemma_hex_val_grows(v@, i as int);
                }
                return None;
            },
        };
        i = i + 1;
        proof {
            assert(v@.take(i as int).drop_last() =~= v@.take(i - 1));
        }
    }
    proof {
        assert(v@.take(v@.len() as int) =~= v@);
    }
    Some(acc)
}

/// A longer hexadecimal prefix never has a smaller value.
proof fn lemma_hex_val_grows(s: Seq<u8>, i: int)
    requires
        0 <= i < s.len(),
    ensures
        hex_val(s) >= hex_val(s.take(i)) * 16 + hex_digit_val(s[i]),
    decreases s.len() - i,
{
    if i == s.len() - 1 {
        assert(s.take(i) =~= s.drop_last());
    } else {
        lemma_hex_val_grows(s, i + 1);
        assert(s.take(i + 1).drop_last() =~= s.take(i));
        assert(hex_val(s.take(i + 1)) >= hex_val(s.take(i)) * 16 + hex_digit_val(s[i]));
    }
}

} // verus!
