//! Decimal text for unsigned values.
//!
//! JSON carries numbers as literal text; these helpers move between that
//! text and `u64`, in the canonical form JSON integers use: digits only,
//! no leading zero.

use vstd::prelude::*;

use crate::json::{is_digit, num_lit, skip_digits};
use crate::ser::hex_char;

verus! {

/// The canonical decimal text of `n`.
pub open spec fn dec_digits(n: nat) -> Seq<char>
    decreases n,
{
    if n < 10 {
        seq![hex_char(n as u32)]
    } else {
        dec_digits(n / 10) + seq![hex_char((n % 10) as u32)]
    }
}

/// Every character of a canonical decimal is a digit, and the first is
/// zero only for the value zero.
proof fn lemma_dec_digits_shape(n: nat)
    ensures
        dec_digits(n).len() > 0,
        forall|i: int| 0 <= i < dec_digits(n).len() ==> is_digit(#[trigger] dec_digits(n)[i]),
        n > 0 ==> dec_digits(n)[0] != '0',
        n == 0 ==> dec_digits(n) == seq!['0'],
    decreases n,
{
    if n < 10 {
        assert(is_digit(hex_char(n as u32)));
        assert(n > 0 ==> hex_char(n as u32) != '0');
    } else {
        lemma_dec_digits_shape(n / 10);
        assert(is_digit(hex_char((n % 10) as u32)));
        assert(dec_digits(n)[0] == dec_digits(n / 10)[0]);
    }
}

/// A sequence of digits scans to its end.
proof fn lemma_skip_digits_all(t: Seq<char>)
    requires
        forall|i: int| 0 <= i < t.len() ==> is_digit(#[trigger] t[i]),
    ensures
        skip_digits(t) == Seq::<char>::empty(),
    decreases t.len(),
{
    if t.len() > 0 {
        assert(forall|i: int| 0 <= i < t.skip(1).len() ==> is_digit(#[trigger] t.skip(1)[i]));
        lemma_skip_digits_all(t.skip(1));
    } else {
        assert(t =~= Seq::<char>::empty());
    }
}

/// The canonical decimal of a value is a JSON number literal.
pub proof fn lemma_dec_digits_num_lit(n: nat)
    ensures
        num_lit(dec_digits(n)),
{
    let t = dec_digits(n);
    lemma_dec_digits_shape(n);
    if n == 0 {
        assert(t[0] == '0');
        assert(t.skip(1) =~= Seq::<char>::empty());
        assert(crate::json::after_int_part(t) == Some(Seq::<char>::empty()));
    } else {
        assert(t[0] != '0' && t[0] != '-');
        lemma_skip_digits_all(t);
        assert(crate::json::after_int_part(t) == Some(Seq::<char>::empty()));
    }
    assert(crate::json::after_frac_part(Seq::<char>::empty()) == Some(Seq::<char>::empty()));
    assert(crate::json::after_exp_part(Seq::<char>::empty()) == Some(Seq::<char>::empty()));
}

/// The canonical decimal text of `n`, executably.
pub fn u64_to_string(n: u64) -> (r: String)
    ensures
        r@ == dec_digits(n as nat),
        num_lit(r@),
{
    let mut out: Vec<char> = Vec::new();
    let mut cur = n;
    while cur >= 10
        invariant
            dec_digits(n as nat) == dec_digits(cur as nat) + out@,
        decreases cur,
    {
        let d = (cur % 10) as u32;
        proof {
            assert(dec_digits(cur as nat) == dec_digits((cur as nat) / 10) + seq![
                hex_char(((cur as nat) % 10) as u32),
            ]);
            assert(((cur as nat) % 10) as u32 == d);
            assert((dec_digits((cur as nat) / 10) + seq![hex_char(d)]) + out@ =~= dec_digits(
                (cur as nat) / 10,
            ) + (seq![hex_char(d)] + out@));
            assert((cur / 10) as nat == (cur as nat) / 10);
        }
        let ghost pre = out@;
        out.insert(0, crate::ser::hex_char_of(d));
        proof {
            assert(out@ =~= seq![hex_char(d)] + pre);
        }
        cur = cur / 10;
    }
    let d = cur as u32;
    proof {
        assert(dec_digits(cur as nat) == seq![hex_char(d)]);
    }
    let ghost pre2 = out@;
    out.insert(0, crate::ser::hex_char_of(d));
    proof {
        assert(out@ =~= seq![hex_char(d)] + pre2);
        assert(out@ =~= dec_digits(n as nat));
        lemma_dec_digits_num_lit(n as nat);
    }
    crate::chars::string_of_chars(&out)
}

/// The value of a digit sequence, most significant first.
pub open spec fn dec_value(t: Seq<char>) -> int
    decreases t.len(),
{
    if t.len() == 0 {
        0
    } else {
        dec_value(t.drop_last()) * 10 + ((t.last() as u32) - 48)
    }
}

/// Reads a canonical decimal as a `u64`: `Some(v)` exactly when the text
/// is `dec_digits(v)` for some `v` that fits.
pub fn u64_of_digits(s: &str) -> (r: Option<u64>)
    ensures
        r matches Some(v) ==> s@ == dec_digits(v as nat),
{
    let cs = crate::chars::chars_vec(s);
    let n = cs.len();
    if n == 0 {
        return None;
    }
    let c0 = cs[0];
    let u0 = c0 as u32;
    if !(48 <= u0 && u0 <= 57) {
        return None;
    }
    if c0 == '0' {
        if n == 1 {
            proof {
                assert(dec_digits(0) =~= seq!['0']);
                assert(cs@ =~= seq!['0']);
            }
            return Some(0);
        }
        return None;
    }
    let mut acc: u64 = 0;
    let mut i: usize = 0;
    while i < n
        invariant
            i <= n,
            n == cs@.len(),
            cs@ == s@,
            cs@[0] != '0',
            n > 0,
            48 <= (cs@[0] as u32) <= 57,
            i > 0 ==> acc > 0,
            i > 0 ==> dec_digits(acc as nat) == cs@.take(i as int),
            i == 0 ==> acc == 0,
        decreases n - i,
    {
        let c = cs[i];
        let u = c as u32;
        if !(48 <= u && u <= 57) {
            return None;
        }
        let d = (u - 48) as u64;
        if acc > (u64::MAX - d) / 10 {
            return None;
        }
        let ghost accold = acc as nat;
        acc = acc * 10 + d;
        proof {
            if i == 0 {
                assert(acc < 10);
                assert(hex_char(acc as u32) == c) by {
                    assert(acc == u - 48);
                    let hc = hex_char(acc as u32);
                    assert((hc as u32) == u);
                    vstd::utf8::char_u32_cast(c, u);
                    vstd::utf8::char_u32_cast(hc, u);
                }
                assert(dec_digits(acc as nat) =~= cs@.take(1));
            } else {
                assert(acc as nat >= 10) by {
                    assert(accold >= 1);
                }
                assert((acc as nat) / 10 == accold && (acc as nat) % 10 == d as nat);
                assert(hex_char(((acc as nat) % 10) as u32) == c) by {
                    assert(d == u - 48);
                    assert(((acc as nat) % 10) as u32 == (u - 48));
                    let hc = hex_char((u - 48) as u32);
                    assert((hc as u32) == u);
                    vstd::utf8::char_u32_cast(c, u);
                    vstd::utf8::char_u32_cast(hc, u);
                }
                assert(dec_digits(acc as nat) == dec_digits(accold) + seq![c]);
                assert(cs@.take(i + 1) =~= cs@.take(i as int) + seq![c]);
            }
            assert(acc > 0);
        }
        i = i + 1;
    }
    proof {
        assert(cs@.take(n as int) =~= cs@);
    }
    Some(acc)
}

} // verus!
