//! The IPv4 address value: four octets, exact equality, and its dotted
//! decimal notation, which is both what the registrar stores in an "A"
//! record's `value` field and what the update query carries.
use vstd::prelude::*;
use crate::text::{dec_chars, digit_char, digit_val, digits_val};

verus! {

/// A four-octet IPv4 address.
#[derive(Clone, Copy, PartialEq, Eq, Structural, Debug, Hash)]
pub struct Ipv4 {
    pub a: u8,
    pub b: u8,
    pub c: u8,
    pub d: u8,
}

/// Dotted decimal notation of an address: the four octets in decimal,
/// separated by dots, without leading zeros.
pub open spec fn ip_chars(ip: Ipv4) -> Seq<char> {
    dec_chars(ip.a as nat) + seq!['.'] + dec_chars(ip.b as nat) + seq!['.'] + dec_chars(
        ip.c as nat,
    ) + seq!['.'] + dec_chars(ip.d as nat)
}

/// A digit character as a borrowed one-character string.
fn digit_str(d: u8) -> (r: &'static str)
    requires
        d < 10,
    ensures
        r@ =~= seq![digit_char(d as nat)],
{
    proof {
        reveal_strlit("0");
        reveal_strlit("1");
        reveal_strlit("2");
        reveal_strlit("3");
        reveal_strlit("4");
        reveal_strlit("5");
        reveal_strlit("6");
        reveal_strlit("7");
        reveal_strlit("8");
        reveal_strlit("9");
    }
    if d == 0 {
        "0"
    } else if d == 1 {
        "1"
    } else if d == 2 {
        "2"
    } else if d == 3 {
        "3"
    } else if d == 4 {
        "4"
    } else if d == 5 {
        "5"
    } else if d == 6 {
        "6"
    } else if d == 7 {
        "7"
    } else if d == 8 {
        "8"
    } else {
        "9"
    }
}

/// Appends the decimal notation of `n` to `s`.
fn push_dec_u8(s: &mut String, n: u8)
    ensures
        final(s)@ == old(s)@ + dec_chars(n as nat),
{
    if n >= 100 {
        s.append(digit_str(n / 100));
        s.append(digit_str((n / 10) % 10));
        s.append(digit_str(n % 10));
        proof {
            assert(dec_chars(n as nat) == dec_chars(n as nat / 10).push(digit_char(n as nat % 10)));
            assert(dec_chars(n as nat / 10) == dec_chars(n as nat / 100).push(
                digit_char((n as nat / 10) % 10),
            )) by {
                assert(n as nat / 10 / 10 == n as nat / 100);
                assert(n as nat / 10 >= 10);
            }
            assert(n as nat / 100 < 10);
            assert(final(s)@ =~= old(s)@ + dec_chars(n as nat));
        }
    } else if n >= 10 {
        s.append(digit_str(n / 10));
        s.append(digit_str(n % 10));
        proof {
            assert(dec_chars(n as nat) == dec_chars(n as nat / 10).push(digit_char(n as nat % 10)));
            assert(n as nat / 10 < 10);
            assert(final(s)@ =~= old(s)@ + dec_chars(n as nat));
        }
    } else {
        s.append(digit_str(n));
        proof {
            assert(final(s)@ =~= old(s)@ + dec_chars(n as nat));
        }
    }
}

impl Ipv4 {
    /// The address with the given four octets.
    pub fn new(a: u8, b: u8, c: u8, d: u8) -> (r: Ipv4)
        ensures
            r == (Ipv4 { a, b, c, d }),
    {
        Ipv4 { a, b, c, d }
    }

    /// The dotted decimal notation of the address.
    pub fn to_dotted(&self) -> (r: String)
        ensures
            r@ == ip_chars(*self),
    {
        proof {
            reveal_strlit(".");
        }
        let mut s = String::new();
        push_dec_u8(&mut s, self.a);
        s.append(".");
        push_dec_u8(&mut s, self.b);
        s.append(".");
        push_dec_u8(&mut s, self.c);
        s.append(".");
        push_dec_u8(&mut s, self.d);
        proof {
            assert(s@ =~= ip_chars(*self));
        }
        s
    }
}

} // verus!
