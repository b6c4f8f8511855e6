//! Reading a value from JSON text.
//!
//! The spec functions in this file state exactly which texts are accepted
//! and which value each one denotes; `parse_json` implements them. Parsing
//! follows the JSON grammar: optional whitespace between tokens, escape
//! sequences (including surrogate pairs) inside strings, and a nesting
//! budget so that absurdly deep documents are rejected rather than
//! exhausting the stack.

use vstd::prelude::*;

use crate::json::{after_exp_part, after_frac_part, after_int_part, after_number, is_digit, lemma_rep_members_push, lemma_rep_seq_push, num_lit, rep_members, rep_of, rep_seq, skip_digits, wf_rep, JsonRep, JsonValue};
use crate::chars::{char_from_u32, chars_vec, string_of_chars};

verus! {

/// The nesting budget: arrays and objects deeper than this are rejected.
pub const MAX_DEPTH: usize = 128;

/// JSON insignificant whitespace.
pub open spec fn is_ws(c: char) -> bool {
    c == ' ' || c == '\t' || c == '\n' || c == '\r'
}

/// The suffix left after the leading run of whitespace.
pub open spec fn skip_ws(s: Seq<char>) -> Seq<char>
    decreases s.len(),
{
    if s.len() > 0 && is_ws(s[0]) {
        skip_ws(s.skip(1))
    } else {
        s
    }
}

/// A hexadecimal digit, either case.
pub open spec fn is_hex(c: char) -> bool {
    is_digit(c) || (97 <= (c as u32) <= 102) || (65 <= (c as u32) <= 70)
}

/// The value of a hexadecimal digit.
pub open spec fn hex_val(c: char) -> int {
    if is_digit(c) {
        (c as u32) - 48
    } else if 97 <= (c as u32) <= 102 {
        (c as u32) - 87
    } else {
        (c as u32) - 55
    }
}

/// Prepends a character to the content of a string-body parse.
pub open spec fn str_cons(c: char, r: Option<(Seq<char>, Seq<char>)>) -> Option<
    (Seq<char>, Seq<char>),
> {
    match r {
        Option::Some((t, sfx)) => Some((seq![c] + t, sfx)),
        Option::None => None,
    }
}

/// The code point of the four hexadecimal digits at the front of `s`.
pub open spec fn hex4_val(s: Seq<char>) -> int {
    hex_val(s[0]) * 0x1000 + hex_val(s[1]) * 0x100 + hex_val(s[2]) * 0x10 + hex_val(s[3])
}

/// Whether `s` starts with four hexadecimal digits.
pub open spec fn hex4_ok(s: Seq<char>) -> bool {
    s.len() >= 4 && is_hex(s[0]) && is_hex(s[1]) && is_hex(s[2]) && is_hex(s[3])
}

/// Parses a string body (after the opening quote): the content and the
/// suffix after the closing quote.
pub open spec fn p_str_body(s: Seq<char>) -> Option<(Seq<char>, Seq<char>)>
    decreases s.len(),
{
    if s.len() == 0 {
        None
    } else if s[0] == '"' {
        Some((Seq::empty(), s.skip(1)))
    } else if s[0] == '\\' {
        if s.len() < 2 {
            None
        } else {
            let e = s[1];
            if e == '"' || e == '\\' || e == '/' {
                str_cons(e, p_str_body(s.skip(2)))
            } else if e == 'n' {
                str_cons('\n', p_str_body(s.skip(2)))
            } else if e == 'r' {
                str_cons('\r', p_str_body(s.skip(2)))
            } else if e == 't' {
                str_cons('\t', p_str_body(s.skip(2)))
            } else if e == 'b' {
                str_cons(8u32 as char, p_str_body(s.skip(2)))
            } else if e == 'f' {
                str_cons(12u32 as char, p_str_body(s.skip(2)))
            } else if e == 'u' {
                if !hex4_ok(s.skip(2)) {
                    None
                } else {
                    let v = hex4_val(s.skip(2));
                    if 0xD800 <= v < 0xDC00 {
                        if s.len() >= 8 && s[6] == '\\' && s[7] == 'u' && hex4_ok(s.skip(8)) {
                            let w = hex4_val(s.skip(8));
                            if 0xDC00 <= w < 0xE000 {
                                let cp = 0x10000 + (v - 0xD800) * 0x400 + (w - 0xDC00);
                                str_cons(cp as char, p_str_body(s.skip(12)))
                            } else {
                                None
                            }
                        } else {
                            None
                        }
                    } else if 0xDC00 <= v < 0xE000 {
                        None
                    } else {
                        str_cons(v as char, p_str_body(s.skip(6)))
                    }
                }
            } else {
                None
            }
        }
    } else if (s[0] as u32) < 32 {
        None
    } else {
        str_cons(s[0], p_str_body(s.skip(1)))
    }
}

/// Parses one value: whitespace, then a literal, number, string, array or
/// object. `d` is the remaining nesting budget.
pub open spec fn p_value(s: Seq<char>, d: nat) -> Option<(JsonRep, Seq<char>)>
    decreases d, s.len(), 0int,
{
    if s.len() == 0 {
        None
    } else if is_ws(s[0]) {
        p_value(s.skip(1), d)
    } else if s[0] == 'n' {
        if s.len() >= 4 && s[1] == 'u' && s[2] == 'l' && s[3] == 'l' {
            Some((JsonRep::Null, s.skip(4)))
        } else {
            None
        }
    } else if s[0] == 't' {
        if s.len() >= 4 && s[1] == 'r' && s[2] == 'u' && s[3] == 'e' {
            Some((JsonRep::Bool(true), s.skip(4)))
        } else {
            None
        }
    } else if s[0] == 'f' {
        if s.len() >= 5 && s[1] == 'a' && s[2] == 'l' && s[3] == 's' && s[4] == 'e' {
            Some((JsonRep::Bool(false), s.skip(5)))
        } else {
            None
        }
    } else if s[0] == '"' {
        match p_str_body(s.skip(1)) {
            Option::Some((t, sfx)) => Some((JsonRep::Text(t), sfx)),
            Option::None => None,
        }
    } else if s[0] == '[' {
        if d == 0 {
            None
        } else {
            match p_elems(s.skip(1), (d - 1) as nat) {
                Option::Some((xs, sfx)) => Some((JsonRep::Array(xs), sfx)),
                Option::None => None,
            }
        }
    } else if s[0] == '{' {
        if d == 0 {
            None
        } else {
            match p_members(s.skip(1), (d - 1) as nat) {
                Option::Some((ms, sfx)) => Some((JsonRep::Object(ms), sfx)),
                Option::None => None,
            }
        }
    } else if s[0] == '-' || is_digit(s[0]) {
        match after_number(s) {
            Option::Some(sfx) => if sfx.len() <= s.len() && num_lit(
                s.take(s.len() - sfx.len()),
            ) {
                Some((JsonRep::Number(s.take(s.len() - sfx.len())), sfx))
            } else {
                None
            },
            Option::None => None,
        }
    } else {
        None
    }
}

/// Parses what follows one array element: either a comma and further
/// elements, or the closing bracket.
pub open spec fn p_after_elem(s: Seq<char>, d: nat) -> Option<(Seq<JsonRep>, Seq<char>)>
    decreases d, s.len(), 1int,
{
    if s.len() == 0 {
        None
    } else if is_ws(s[0]) {
        p_after_elem(s.skip(1), d)
    } else if s[0] == ',' {
        p_elems1(s.skip(1), d)
    } else if s[0] == ']' {
        Some((Seq::empty(), s.skip(1)))
    } else {
        None
    }
}

/// Parses one or more array elements and the closing bracket.
pub open spec fn p_elems1(s: Seq<char>, d: nat) -> Option<(Seq<JsonRep>, Seq<char>)>
    decreases d, s.len(), 2int,
{
    match p_value(s, d) {
        Option::Some((x, s1)) => if s1.len() < s.len() {
            match p_after_elem(s1, d) {
                Option::Some((xs, sfx)) => Some((seq![x] + xs, sfx)),
                Option::None => None,
            }
        } else {
            None
        },
        Option::None => None,
    }
}

/// Parses the inside of an array, after the opening bracket.
pub open spec fn p_elems(s: Seq<char>, d: nat) -> Option<(Seq<JsonRep>, Seq<char>)>
    decreases d, s.len(), 3int,
{
    if s.len() == 0 {
        None
    } else if is_ws(s[0]) {
        p_elems(s.skip(1), d)
    } else if s[0] == ']' {
        Some((Seq::empty(), s.skip(1)))
    } else {
        p_elems1(s, d)
    }
}

/// Parses the colon and value of one member, after its key.
pub open spec fn p_member_rest(k: Seq<char>, s: Seq<char>, d: nat) -> Option<
    (Seq<(Seq<char>, JsonRep)>, Seq<char>),
>
    decreases d, s.len(), 1int,
{
    if s.len() == 0 {
        None
    } else if is_ws(s[0]) {
        p_member_rest(k, s.skip(1), d)
    } else if s[0] == ':' {
        match p_value(s.skip(1), d) {
            Option::Some((x, s2)) => if s2.len() < s.len() {
                match p_after_member(s2, d) {
                    Option::Some((ms, sfx)) => Some((seq![(k, x)] + ms, sfx)),
                    Option::None => None,
                }
            } else {
                None
            },
            Option::None => None,
        }
    } else {
        None
    }
}

/// Parses what follows one member: either a comma and further members, or
/// the closing brace.
pub open spec fn p_after_member(s: Seq<char>, d: nat) -> Option<
    (Seq<(Seq<char>, JsonRep)>, Seq<char>),
>
    decreases d, s.len(), 0int,
{
    if s.len() == 0 {
        None
    } else if is_ws(s[0]) {
        p_after_member(s.skip(1), d)
    } else if s[0] == ',' {
        p_members1(s.skip(1), d)
    } else if s[0] == '}' {
        Some((Seq::empty(), s.skip(1)))
    } else {
        None
    }
}

/// Parses one or more members and the closing brace.
pub open spec fn p_members1(s: Seq<char>, d: nat) -> Option<
    (Seq<(Seq<char>, JsonRep)>, Seq<char>),
>
    decreases d, s.len(), 2int,
{
    if s.len() == 0 {
        None
    } else if is_ws(s[0]) {
        p_members1(s.skip(1), d)
    } else if s[0] == '"' {
        match p_str_body(s.skip(1)) {
            Option::Some((k, s1)) => if s1.len() < s.len() {
                p_member_rest(k, s1, d)
            } else {
                None
            },
            Option::None => None,
        }
    } else {
        None
    }
}

/// Parses the inside of an object, after the opening brace.
pub open spec fn p_members(s: Seq<char>, d: nat) -> Option<
    (Seq<(Seq<char>, JsonRep)>, Seq<char>),
>
    decreases d, s.len(), 3int,
{
    if s.len() == 0 {
        None
    } else if is_ws(s[0]) {
        p_members(s.skip(1), d)
    } else if s[0] == '}' {
        Some((Seq::empty(), s.skip(1)))
    } else {
        p_members1(s, d)
    }
}

/// Leading whitespace does not change what a value parse yields.
pub proof fn lemma_p_value_ws(s: Seq<char>, d: nat)
    ensures
        p_value(s, d) == p_value(skip_ws(s), d),
    decreases s.len(),
{
    if s.len() > 0 && is_ws(s[0]) {
        lemma_p_value_ws(s.skip(1), d);
    }
}

/// Leading whitespace does not change what an array-inside parse yields.
pub proof fn lemma_p_elems_ws(s: Seq<char>, d: nat)
    ensures
        p_elems(s, d) == p_elems(skip_ws(s), d),
    decreases s.len(),
{
    if s.len() > 0 && is_ws(s[0]) {
        lemma_p_elems_ws(s.skip(1), d);
    }
}

/// Leading whitespace does not change what follows an element.
pub proof fn lemma_p_after_elem_ws(s: Seq<char>, d: nat)
    ensures
        p_after_elem(s, d) == p_after_elem(skip_ws(s), d),
    decreases s.len(),
{
    if s.len() > 0 && is_ws(s[0]) {
        lemma_p_after_elem_ws(s.skip(1), d);
    }
}

/// Leading whitespace does not change what an object-inside parse yields.
pub proof fn lemma_p_members_ws(s: Seq<char>, d: nat)
    ensures
        p_members(s, d) == p_members(skip_ws(s), d),
    decreases s.len(),
{
    if s.len() > 0 && is_ws(s[0]) {
        lemma_p_members_ws(s.skip(1), d);
    }
}

/// Leading whitespace does not change what a member-list parse yields.
pub proof fn lemma_p_members1_ws(s: Seq<char>, d: nat)
    ensures
        p_members1(s, d) == p_members1(skip_ws(s), d),
    decreases s.len(),
{
    if s.len() > 0 && is_ws(s[0]) {
        lemma_p_members1_ws(s.skip(1), d);
    }
}

/// Leading whitespace does not change what follows a member.
pub proof fn lemma_p_after_member_ws(s: Seq<char>, d: nat)
    ensures
        p_after_member(s, d) == p_after_member(skip_ws(s), d),
    decreases s.len(),
{
    if s.len() > 0 && is_ws(s[0]) {
        lemma_p_after_member_ws(s.skip(1), d);
    }
}

/// Leading whitespace does not change what a member's rest parse yields.
pub proof fn lemma_p_member_rest_ws(k: Seq<char>, s: Seq<char>, d: nat)
    ensures
        p_member_rest(k, s, d) == p_member_rest(k, skip_ws(s), d),
    decreases s.len(),
{
    if s.len() > 0 && is_ws(s[0]) {
        lemma_p_member_rest_ws(k, s.skip(1), d);
    }
}

/// Parses a whole document: one value and nothing but whitespace after it.
pub open spec fn p_doc(s: Seq<char>) -> Option<JsonRep> {
    match p_value(s, MAX_DEPTH as nat) {
        Option::Some((x, sfx)) => if skip_ws(sfx).len() == 0 {
            Some(x)
        } else {
            None
        },
        Option::None => None,
    }
}

/// Whether `c` is JSON whitespace, executably.
fn is_ws_c(c: char) -> (r: bool)
    ensures
        r == is_ws(c),
{
    c == ' ' || c == '\t' || c == '\n' || c == '\r'
}

/// Whether `c` is a decimal digit, executably.
fn is_digit_c(c: char) -> (r: bool)
    ensures
        r == is_digit(c),
{
    let u = c as u32;
    48 <= u && u <= 57
}

/// Whether `c` is a hexadecimal digit, executably.
fn is_hex_c(c: char) -> (r: bool)
    ensures
        r == is_hex(c),
{
    let u = c as u32;
    (48 <= u && u <= 57) || (97 <= u && u <= 102) || (65 <= u && u <= 70)
}

/// The value of a hexadecimal digit, executably.
fn hex_val_c(c: char) -> (r: u32)
    requires
        is_hex(c),
    ensures
        r == hex_val(c),
        r < 16,
{
    let u = c as u32;
    if 48 <= u && u <= 57 {
        u - 48
    } else if 97 <= u && u <= 102 {
        u - 87
    } else {
        u - 55
    }
}

/// The index after the leading whitespace at `i`.
fn skip_ws_at(v: &Vec<char>, i: usize) -> (j: usize)
    requires
        i <= v@.len(),
    ensures
        i <= j <= v@.len(),
        v@.skip(j as int) == skip_ws(v@.skip(i as int)),
        j < v@.len() ==> !is_ws(v@[j as int]),
{
    let n = v.len();
    let mut j = i;
    while j < n && is_ws_c(v[j])
        invariant
            i <= j <= n,
            n == v@.len(),
            skip_ws(v@.skip(i as int)) == skip_ws(v@.skip(j as int)),
        decreases n - j,
    {
        proof {
            assert(v@.skip(j as int)[0] == v@[j as int]);
            assert(v@.skip(j as int).skip(1) =~= v@.skip(j + 1));
        }
        j = j + 1;
    }
    proof {
        if j < n {
            assert(v@.skip(j as int)[0] == v@[j as int]);
            assert(skip_ws(v@.skip(j as int)) == v@.skip(j as int));
        } else {
            assert(v@.skip(j as int).len() == 0);
            assert(skip_ws(v@.skip(j as int)) == v@.skip(j as int));
        }
    }
    j
}

/// The index after the leading run of digits at `i`.
fn digits_end_at(v: &Vec<char>, i: usize) -> (j: usize)
    requires
        i <= v@.len(),
    ensures
        i <= j <= v@.len(),
        v@.skip(j as int) == skip_digits(v@.skip(i as int)),
        i < v@.len() && is_digit(v@[i as int]) ==> j > i,
{
    let n = v.len();
    let mut j = i;
    while j < n && is_digit_c(v[j])
        invariant
            i <= j <= n,
            n == v@.len(),
            skip_digits(v@.skip(i as int)) == skip_digits(v@.skip(j as int)),
        decreases n - j,
    {
        proof {
            assert(v@.skip(j as int)[0] == v@[j as int]);
            assert(v@.skip(j as int).skip(1) =~= v@.skip(j + 1));
        }
        j = j + 1;
    }
    proof {
        if j < n {
            assert(v@.skip(j as int)[0] == v@[j as int]);
            assert(skip_digits(v@.skip(j as int)) == v@.skip(j as int));
        } else {
            assert(v@.skip(j as int).len() == 0);
            assert(skip_digits(v@.skip(j as int)) == v@.skip(j as int));
        }
    }
    j
}

/// The index after the number token at `i`, if one starts there.
#[verifier::rlimit(100)]
#[verifier::spinoff_prover]
fn number_end_at(v: &Vec<char>, i: usize) -> (r: Option<usize>)
    requires
        i <= v@.len(),
    ensures
        match r {
            Some(j) => i < j <= v@.len() && after_number(v@.skip(i as int)) == Some(
                v@.skip(j as int),
            ),
            None => after_number(v@.skip(i as int)) is None,
        },
{
    let n = v.len();
    let ghost s = v@.skip(i as int);
    // integer part
    let mut j = i;
    if j < n && v[j] == '-' {
        proof {
            assert(s[0] == v@[i as int]);
        }
        j = j + 1;
    }
    proof {
        assert(v@.skip(j as int) =~= if s.len() > 0 && s[0] == '-' {
            s.skip(1)
        } else {
            s
        });
    }
    let ghost t1 = v@.skip(j as int);
    if !(j < n && is_digit_c(v[j])) {
        proof {
            if j < n {
                assert(t1[0] == v@[j as int]);
            }
            assert(after_int_part(s) is None);
        }
        return None;
    }
    assert(t1[0] == v@[j as int]);
    let a_end: usize = if v[j] == '0' {
        proof {
            assert(t1.skip(1) =~= v@.skip(j + 1));
        }
        j + 1
    } else {
        digits_end_at(v, j)
    };
    proof {
        assert(after_int_part(s) == Some(v@.skip(a_end as int)));
    }
    let ghost a = v@.skip(a_end as int);
    // fraction part
    let mut b_end: usize = a_end;
    if a_end < n && v[a_end] == '.' {
        proof {
            assert(a[0] == v@[a_end as int]);
        }
        if a_end + 1 < n && is_digit_c(v[a_end + 1]) {
            proof {
                assert(a[1] == v@[a_end + 1]);
                assert(a.skip(1) =~= v@.skip(a_end + 1));
            }
            b_end = digits_end_at(v, a_end + 1);
            proof {
                assert(after_frac_part(a) == Some(v@.skip(b_end as int)));
            }
        } else {
            proof {
                if a_end + 1 < n {
                    assert(a[1] == v@[a_end + 1]);
                }
                assert(after_frac_part(a) is None);
            }
            return None;
        }
    } else {
        proof {
            if a_end < n {
                assert(a[0] == v@[a_end as int]);
            }
            assert(after_frac_part(a) == Some(a));
        }
    }
    proof {
        assert(after_frac_part(a) == Some(v@.skip(b_end as int)));
    }
    let ghost b = v@.skip(b_end as int);
    // exponent part
    let mut e_end: usize = b_end;
    if b_end < n && (v[b_end] == 'e' || v[b_end] == 'E') {
        proof {
            assert(b[0] == v@[b_end as int]);
        }
        let mut k = b_end + 1;
        if k < n && (v[k] == '+' || v[k] == '-') {
            proof {
                assert(b[1] == v@[k as int]);
            }
            k = k + 1;
        }
        proof {
            assert(v@.skip(k as int) =~= if b.len() > 1 && (b[1] == '+' || b[1] == '-') {
                b.skip(2)
            } else {
                b.skip(1)
            });
        }
        let ghost u = v@.skip(k as int);
        if k < n && is_digit_c(v[k]) {
            proof {
                assert(u[0] == v@[k as int]);
            }
            e_end = digits_end_at(v, k);
            proof {
                assert(after_exp_part(b) == Some(v@.skip(e_end as int)));
            }
        } else {
            proof {
                if k < n {
                    assert(u[0] == v@[k as int]);
                }
                assert(after_exp_part(b) is None);
            }
            return None;
        }
    } else {
        proof {
            if b_end < n {
                assert(b[0] == v@[b_end as int]);
            }
            assert(after_exp_part(b) == Some(b));
        }
    }
    proof {
        assert(after_number(s) == Some(v@.skip(e_end as int)));
    }
    Some(e_end)
}

/// Carrying one decoded character from the spec parse into the
/// accumulated content.
proof fn lemma_str_cons_shift(
    orig: Seq<char>,
    s: Seq<char>,
    tail: Seq<char>,
    a_old: Seq<char>,
    c: char,
)
    requires
        p_str_body(s) == str_cons(c, p_str_body(tail)),
        match p_str_body(s) {
            Option::Some((t, f)) => p_str_body(orig) == Some((a_old + t, f)),
            Option::None => p_str_body(orig) is None,
        },
    ensures
        match p_str_body(tail) {
            Option::Some((t, f)) => p_str_body(orig) == Some((a_old.push(c) + t, f)),
            Option::None => p_str_body(orig) is None,
        },
{
    match p_str_body(tail) {
        Option::Some((t, f)) => {
            assert(a_old + (seq![c] + t) =~= a_old.push(c) + t);
        },
        Option::None => {},
    }
}

/// Parses a string body starting at `i` (just after the opening quote).
#[verifier::rlimit(100)]
#[verifier::spinoff_prover]
fn parse_string_at(v: &Vec<char>, i: usize) -> (r: Option<(String, usize)>)
    requires
        i <= v@.len(),
    ensures
        match r {
            Some((t, j)) => i < j <= v@.len() && p_str_body(v@.skip(i as int)) == Some(
                (t@, v@.skip(j as int)),
            ),
            None => p_str_body(v@.skip(i as int)) is None,
        },
{
    let n = v.len();
    let mut cur = i;
    let mut acc: Vec<char> = Vec::new();
    proof {
        assert(acc@ =~= Seq::<char>::empty());
    }
    loop
        invariant
            i <= cur <= n,
            n == v@.len(),
            match p_str_body(v@.skip(cur as int)) {
                Option::Some((t, f)) => p_str_body(v@.skip(i as int)) == Some((acc@ + t, f)),
                Option::None => p_str_body(v@.skip(i as int)) is None,
            },
        decreases n - cur,
    {
        let ghost orig = v@.skip(i as int);
        let ghost s = v@.skip(cur as int);
        if cur == n {
            proof {
                assert(s.len() == 0);
            }
            return None;
        }
        let c = v[cur];
        proof {
            assert(s[0] == c);
        }
        if c == '"' {
            proof {
                assert(s.skip(1) =~= v@.skip(cur + 1));
                assert(acc@ + Seq::<char>::empty() =~= acc@);
            }
            let out = string_of_chars(&acc);
            return Some((out, cur + 1));
        } else if c == '\\' {
            if n - cur < 2 {
                proof {
                    assert(s.len() < 2);
                }
                return None;
            }
            let e = v[cur + 1];
            proof {
                assert(s[1] == e);
            }
            if e == '"' || e == '\\' || e == '/' {
                proof {
                    assert(s.skip(2) =~= v@.skip(cur + 2));
                    lemma_str_cons_shift(orig, s, v@.skip(cur + 2), acc@, e);
                }
                acc.push(e);
                cur = cur + 2;
            } else if e == 'n' {
                proof {
                    assert(s.skip(2) =~= v@.skip(cur + 2));
                    lemma_str_cons_shift(orig, s, v@.skip(cur + 2), acc@, '\n');
                }
                acc.push('\n');
                cur = cur + 2;
            } else if e == 'r' {
                proof {
                    assert(s.skip(2) =~= v@.skip(cur + 2));
                    lemma_str_cons_shift(orig, s, v@.skip(cur + 2), acc@, '\r');
                }
                acc.push('\r');
                cur = cur + 2;
            } else if e == 't' {
                proof {
                    assert(s.skip(2) =~= v@.skip(cur + 2));
                    lemma_str_cons_shift(orig, s, v@.skip(cur + 2), acc@, '\t');
                }
                acc.push('\t');
                cur = cur + 2;
            } else if e == 'b' {
                proof {
                    assert(('\u{0008}' as u32) == 8);
                    vstd::utf8::char_u32_cast('\u{0008}', 8u32);
                    assert(s.skip(2) =~= v@.skip(cur + 2));
                    lemma_str_cons_shift(orig, s, v@.skip(cur + 2), acc@, '\u{0008}');
                }
                acc.push('\u{0008}');
                cur = cur + 2;
            } else if e == 'f' {
                proof {
                    assert(('\u{000C}' as u32) == 12);
                    vstd::utf8::char_u32_cast('\u{000C}', 12u32);
                    assert(s.skip(2) =~= v@.skip(cur + 2));
                    lemma_str_cons_shift(orig, s, v@.skip(cur + 2), acc@, '\u{000C}');
                }
                acc.push('\u{000C}');
                cur = cur + 2;
            } else if e == 'u' {
                if n - cur < 6 || !(is_hex_c(v[cur + 2]) && is_hex_c(v[cur + 3]) && is_hex_c(
                    v[cur + 4],
                ) && is_hex_c(v[cur + 5])) {
                    proof {
                        if s.len() >= 6 {
                            assert(s.skip(2) =~= v@.skip(cur + 2));
                            assert(s.skip(2)[0] == v@[cur + 2] && s.skip(2)[1] == v@[cur + 3]
                                && s.skip(2)[2] == v@[cur + 4] && s.skip(2)[3] == v@[cur + 5]);
                        }
                        assert(!hex4_ok(s.skip(2)));
                    }
                    return None;
                }
                let hv: u32 = ((hex_val_c(v[cur + 2]) * 16 + hex_val_c(v[cur + 3])) * 16
                    + hex_val_c(v[cur + 4])) * 16 + hex_val_c(v[cur + 5]);
                proof {
                    assert(s.skip(2) =~= v@.skip(cur + 2));
                    assert(s.skip(2)[0] == v@[cur + 2] && s.skip(2)[1] == v@[cur + 3] && s.skip(
                        2,
                    )[2] == v@[cur + 4] && s.skip(2)[3] == v@[cur + 5]);
                    assert(hex4_ok(s.skip(2)));
                    assert(hv == hex4_val(s.skip(2)));
                }
                if 0xD800 <= hv && hv < 0xDC00 {
                    // a high surrogate must be followed by a low surrogate escape
                    if n - cur < 12 || !(v[cur + 6] == '\\' && v[cur + 7] == 'u' && is_hex_c(
                        v[cur + 8],
                    ) && is_hex_c(v[cur + 9]) && is_hex_c(v[cur + 10]) && is_hex_c(v[cur + 11])) {
                        proof {
                            if s.len() >= 8 {
                                assert(s[6] == v@[cur + 6] && s[7] == v@[cur + 7]);
                                assert(s.skip(8) =~= v@.skip(cur + 8));
                                if s.len() >= 12 {
                                    assert(s.skip(8)[0] == v@[cur + 8] && s.skip(8)[1] == v@[cur
                                        + 9] && s.skip(8)[2] == v@[cur + 10] && s.skip(8)[3]
                                        == v@[cur + 11]);
                                }
                            }
                        }
                        return None;
                    }
                    let wv: u32 = ((hex_val_c(v[cur + 8]) * 16 + hex_val_c(v[cur + 9])) * 16
                        + hex_val_c(v[cur + 10])) * 16 + hex_val_c(v[cur + 11]);
                    proof {
                        assert(s[6] == v@[cur + 6] && s[7] == v@[cur + 7]);
                        assert(s.skip(8) =~= v@.skip(cur + 8));
                        assert(s.skip(8)[0] == v@[cur + 8] && s.skip(8)[1] == v@[cur + 9]
                            && s.skip(8)[2] == v@[cur + 10] && s.skip(8)[3] == v@[cur + 11]);
                        assert(hex4_ok(s.skip(8)));
                        assert(wv == hex4_val(s.skip(8)));
                    }
                    if 0xDC00 <= wv && wv < 0xE000 {
                        let cp: u32 = 0x10000 + (hv - 0xD800) * 0x400 + (wv - 0xDC00);
                        let copt = char_from_u32(cp);
                        match copt {
                            Some(cc) => {
                                proof {
                                    assert(cp as int == 0x10000 + (hex4_val(s.skip(2)) - 0xD800)
                                        * 0x400 + (hex4_val(s.skip(8)) - 0xDC00));
                                    assert(s.skip(12) =~= v@.skip(cur + 12));
                                    lemma_str_cons_shift(orig, s, v@.skip(cur + 12), acc@, cc);
                                }
                                acc.push(cc);
                                cur = cur + 12;
                            },
                            None => {
                                // unreachable: the combined code point is a scalar value
                                proof {
                                    assert(0x10000 <= cp <= 0x10FFFF);
                                    assert(false);
                                }
                                return None;
                            },
                        }
                    } else {
                        return None;
                    }
                } else if 0xDC00 <= hv && hv < 0xE000 {
                    return None;
                } else {
                    let copt = char_from_u32(hv);
                    match copt {
                        Some(cc) => {
                            proof {
                                assert(s.skip(6) =~= v@.skip(cur + 6));
                                lemma_str_cons_shift(orig, s, v@.skip(cur + 6), acc@, cc);
                            }
                            acc.push(cc);
                            cur = cur + 6;
                        },
                        None => {
                            proof {
                                assert(hv <= 0xFFFF);
                                assert(false);
                            }
                            return None;
                        },
                    }
                }
            } else {
                return None;
            }
        } else if (c as u32) < 32 {
            return None;
        } else {
            proof {
                assert(s.skip(1) =~= v@.skip(cur + 1));
                lemma_str_cons_shift(orig, s, v@.skip(cur + 1), acc@, c);
            }
            acc.push(c);
            cur = cur + 1;
        }
    }
}

/// Carrying one parsed element from the spec parse into the accumulated
/// vector.
proof fn lemma_elems_shift(
    s0: Seq<char>,
    scur: Seq<char>,
    snext: Seq<char>,
    a: Seq<JsonValue>,
    x: JsonValue,
    d: nat,
)
    requires
        match p_elems1(scur, d) {
            Option::Some((ys, f)) => p_elems1(s0, d) == Some((rep_seq(a) + ys, f)),
            Option::None => p_elems1(s0, d) is None,
        },
        p_elems1(scur, d) == match p_elems1(snext, d) {
            Option::Some((ys2, f)) => Some((seq![rep_of(x)] + ys2, f)),
            Option::None => None,
        },
    ensures
        match p_elems1(snext, d) {
            Option::Some((ys, f)) => p_elems1(s0, d) == Some((rep_seq(a.push(x)) + ys, f)),
            Option::None => p_elems1(s0, d) is None,
        },
{
    lemma_rep_seq_push(a, x);
    match p_elems1(snext, d) {
        Option::Some((ys, f)) => {
            assert(rep_seq(a) + (seq![rep_of(x)] + ys) =~= rep_seq(a.push(x)) + ys);
        },
        Option::None => {},
    }
}

/// Carrying one parsed member from the spec parse into the accumulated
/// vector.
proof fn lemma_members_shift(
    s0: Seq<char>,
    scur: Seq<char>,
    snext: Seq<char>,
    a: Seq<(String, JsonValue)>,
    m: (String, JsonValue),
    d: nat,
)
    requires
        match p_members1(scur, d) {
            Option::Some((ys, f)) => p_members1(s0, d) == Some((rep_members(a) + ys, f)),
            Option::None => p_members1(s0, d) is None,
        },
        p_members1(scur, d) == match p_members1(snext, d) {
            Option::Some((ys2, f)) => Some((seq![(m.0@, rep_of(m.1))] + ys2, f)),
            Option::None => None,
        },
    ensures
        match p_members1(snext, d) {
            Option::Some((ys, f)) => p_members1(s0, d) == Some((rep_members(a.push(m)) + ys, f)),
            Option::None => p_members1(s0, d) is None,
        },
{
    lemma_rep_members_push(a, m);
    match p_members1(snext, d) {
        Option::Some((ys, f)) => {
            assert(rep_members(a) + (seq![(m.0@, rep_of(m.1))] + ys) =~= rep_members(a.push(m))
                + ys);
        },
        Option::None => {},
    }
}

/// Parses one value starting at `i`.
#[verifier::rlimit(100)]
#[verifier::spinoff_prover]
fn parse_value_at(v: &Vec<char>, i: usize, d: usize) -> (r: Option<(JsonValue, usize)>)
    requires
        i <= v@.len(),
    ensures
        match r {
            Some((x, j)) => i < j <= v@.len() && p_value(v@.skip(i as int), d as nat) == Some(
                (rep_of(x), v@.skip(j as int)),
            ),
            None => p_value(v@.skip(i as int), d as nat) is None,
        },
    decreases d, v@.len() - i, 0int,
{
    let n = v.len();
    let j = skip_ws_at(v, i);
    proof {
        lemma_p_value_ws(v@.skip(i as int), d as nat);
    }
    let ghost s = v@.skip(j as int);
    if j == n {
        proof {
            assert(s.len() == 0);
        }
        return None;
    }
    let c = v[j];
    proof {
        assert(s[0] == c);
        assert(!is_ws(c));
    }
    if c == 'n' {
        proof {
            if s.len() >= 4 {
                assert(s[1] == v@[j + 1] && s[2] == v@[j + 2] && s[3] == v@[j + 3]);
            }
        }
        if n - j >= 4 && v[j + 1] == 'u' && v[j + 2] == 'l' && v[j + 3] == 'l' {
            proof {
                assert(s.skip(4) =~= v@.skip(j + 4));
            }
            Some((JsonValue::Null, j + 4))
        } else {
            None
        }
    } else if c == 't' {
        proof {
            if s.len() >= 4 {
                assert(s[1] == v@[j + 1] && s[2] == v@[j + 2] && s[3] == v@[j + 3]);
            }
        }
        if n - j >= 4 && v[j + 1] == 'r' && v[j + 2] == 'u' && v[j + 3] == 'e' {
            proof {
                assert(s.skip(4) =~= v@.skip(j + 4));
            }
            Some((JsonValue::Bool(true), j + 4))
        } else {
            None
        }
    } else if c == 'f' {
        proof {
            if s.len() >= 5 {
                assert(s[1] == v@[j + 1] && s[2] == v@[j + 2] && s[3] == v@[j + 3] && s[4]
                    == v@[j + 4]);
            }
        }
        if n - j >= 5 && v[j + 1] == 'a' && v[j + 2] == 'l' && v[j + 3] == 's' && v[j + 4]
            == 'e' {
            proof {
                assert(s.skip(5) =~= v@.skip(j + 5));
            }
            Some((JsonValue::Bool(false), j + 5))
        } else {
            None
        }
    } else if c == '"' {
        proof {
            assert(s.skip(1) =~= v@.skip(j + 1));
        }
        match parse_string_at(v, j + 1) {
            Some((t, j2)) => Some((JsonValue::Text(t), j2)),
            None => None,
        }
    } else if c == '[' {
        if d == 0 {
            None
        } else {
            proof {
                assert(s.skip(1) =~= v@.skip(j + 1));
            }
            match parse_elems_at(v, j + 1, d - 1) {
                Some((xs, j2)) => {
                    proof {
                        crate::json::lemma_rep_of_array(xs);
                    }
                    Some((JsonValue::Array(xs), j2))
                },
                None => None,
            }
        }
    } else if c == '{' {
        if d == 0 {
            None
        } else {
            proof {
                assert(s.skip(1) =~= v@.skip(j + 1));
            }
            match parse_members_at(v, j + 1, d - 1) {
                Some((ms, j2)) => {
                    proof {
                        crate::json::lemma_rep_of_object(ms);
                    }
                    Some((JsonValue::Object(ms), j2))
                },
                None => None,
            }
        }
    } else {
        let digit = is_digit_c(c);
        if c == '-' || digit {
            match number_end_at(v, j) {
                Some(j2) => {
                    let mut tok: Vec<char> = Vec::new();
                    let mut k = j;
                    proof {
                        assert(tok@ =~= v@.subrange(j as int, j as int));
                    }
                    while k < j2
                        invariant
                            j <= k <= j2 <= v@.len(),
                            tok@ == v@.subrange(j as int, k as int),
                        decreases j2 - k,
                    {
                        let ch = v[k];
                        proof {
                            assert(v@.subrange(j as int, k + 1) =~= v@.subrange(
                                j as int,
                                k as int,
                            ).push(v@[k as int]));
                        }
                        tok.push(ch);
                        k = k + 1;
                    }
                    let ts = string_of_chars(&tok);
                    proof {
                        assert(after_number(s) == Some(v@.skip(j2 as int)));
                        assert(s.take(s.len() - v@.skip(j2 as int).len()) =~= v@.subrange(
                            j as int,
                            j2 as int,
                        ));
                    }
                    // the extracted token must itself be one whole number
                    // literal; a rescan of the token alone checks that
                    match number_end_at(&tok, 0) {
                        Some(k) => {
                            proof {
                                assert(tok@.skip(0) =~= tok@);
                            }
                            if k == tok.len() {
                                proof {
                                    assert(tok@.skip(k as int).len() == 0);
                                    assert(after_number(tok@) == Some(tok@.skip(k as int)));
                                    assert(tok@.skip(k as int) =~= Seq::<char>::empty());
                                    assert(num_lit(tok@));
                                }
                                Some((JsonValue::Number(ts), j2))
                            } else {
                                proof {
                                    assert(tok@.skip(k as int).len() > 0);
                                    assert(!num_lit(tok@));
                                }
                                None
                            }
                        },
                        None => {
                            proof {
                                assert(tok@.skip(0) =~= tok@);
                                assert(!num_lit(tok@));
                            }
                            None
                        },
                    }
                },
                None => None,
            }
        } else {
            None
        }
    }
}

/// Parses the inside of an array starting at `i` (just after the opening
/// bracket).
#[verifier::rlimit(100)]
#[verifier::spinoff_prover]
fn parse_elems_at(v: &Vec<char>, i: usize, d: usize) -> (r: Option<(Vec<JsonValue>, usize)>)
    requires
        i <= v@.len(),
    ensures
        match r {
            Some((xs, j)) => i < j <= v@.len() && p_elems(v@.skip(i as int), d as nat) == Some(
                (rep_seq(xs@), v@.skip(j as int)),
            ),
            None => p_elems(v@.skip(i as int), d as nat) is None,
        },
    decreases d, v@.len() - i, 1int,
{
    let n = v.len();
    let jw = skip_ws_at(v, i);
    proof {
        lemma_p_elems_ws(v@.skip(i as int), d as nat);
    }
    if jw == n {
        proof {
            assert(v@.skip(jw as int).len() == 0);
        }
        return None;
    }
    proof {
        assert(v@.skip(jw as int)[0] == v@[jw as int]);
        assert(!is_ws(v@[jw as int]));
    }
    if v[jw] == ']' {
        let out: Vec<JsonValue> = Vec::new();
        proof {
            assert(v@.skip(jw as int).skip(1) =~= v@.skip(jw + 1));
            assert(rep_seq(out@) =~= Seq::<JsonRep>::empty());
        }
        return Some((out, jw + 1));
    }
    let ghost j0 = jw as int;
    proof {
        assert(p_elems(v@.skip(i as int), d as nat) == p_elems1(v@.skip(j0), d as nat));
    }
    let mut acc: Vec<JsonValue> = Vec::new();
    let mut cur = jw;
    proof {
        assert(rep_seq(acc@) =~= Seq::<JsonRep>::empty());
        assert(match p_elems1(v@.skip(cur as int), d as nat) {
            Option::Some((ys, f)) => p_elems1(v@.skip(j0), d as nat) == Some(
                (rep_seq(acc@) + ys, f),
            ),
            Option::None => p_elems1(v@.skip(j0), d as nat) is None,
        }) by {
            match p_elems1(v@.skip(j0), d as nat) {
                Option::Some((ys, f)) => {
                    assert(rep_seq(acc@) + ys =~= ys);
                },
                Option::None => {},
            }
        }
    }
    loop
        invariant
            i <= j0 <= cur <= n,
            n == v@.len(),
            p_elems(v@.skip(i as int), d as nat) == p_elems1(v@.skip(j0), d as nat),
            match p_elems1(v@.skip(cur as int), d as nat) {
                Option::Some((ys, f)) => p_elems1(v@.skip(j0), d as nat) == Some(
                    (rep_seq(acc@) + ys, f),
                ),
                Option::None => p_elems1(v@.skip(j0), d as nat) is None,
            },
        decreases n - cur,
    {
        let ghost scur = v@.skip(cur as int);
        match parse_value_at(v, cur, d) {
            None => {
                return None;
            },
            Some((x, j2)) => {
                proof {
                    assert(v@.skip(j2 as int).len() < scur.len());
                }
                let j3 = skip_ws_at(v, j2);
                proof {
                    lemma_p_after_elem_ws(v@.skip(j2 as int), d as nat);
                }
                let ghost s3 = v@.skip(j3 as int);
                if j3 < n {
                    proof {
                        assert(s3[0] == v@[j3 as int]);
                        assert(!is_ws(v@[j3 as int]));
                    }
                }
                if j3 < n && v[j3] == ',' {
                    proof {
                        assert(s3.skip(1) =~= v@.skip(j3 + 1));
                        assert(p_elems1(scur, d as nat) == match p_elems1(
                            v@.skip(j3 + 1),
                            d as nat,
                        ) {
                            Option::Some((ys2, f)) => Some((seq![rep_of(x)] + ys2, f)),
                            Option::None => None,
                        });
                        lemma_elems_shift(
                            v@.skip(j0),
                            scur,
                            v@.skip(j3 + 1),
                            acc@,
                            x,
                            d as nat,
                        );
                    }
                    acc.push(x);
                    cur = j3 + 1;
                } else if j3 < n && v[j3] == ']' {
                    proof {
                        assert(s3.skip(1) =~= v@.skip(j3 + 1));
                        assert(p_after_elem(s3, d as nat) == Some(
                            (Seq::<JsonRep>::empty(), v@.skip(j3 + 1)),
                        ));
                        assert(seq![rep_of(x)] + Seq::<JsonRep>::empty() =~= seq![rep_of(x)]);
                        assert(p_elems1(scur, d as nat) == Some(
                            (seq![rep_of(x)], v@.skip(j3 + 1)),
                        ));
                        lemma_rep_seq_push(acc@, x);
                        assert(rep_seq(acc@) + seq![rep_of(x)] =~= rep_seq(acc@.push(x)));
                    }
                    acc.push(x);
                    return Some((acc, j3 + 1));
                } else {
                    proof {
                        if j3 < n {
                            assert(p_after_elem(s3, d as nat) is None);
                        } else {
                            assert(s3.len() == 0);
                        }
                    }
                    return None;
                }
            },
        }
    }
}

/// Parses the inside of an object starting at `i` (just after the opening
/// brace).
#[verifier::rlimit(100)]
#[verifier::spinoff_prover]
fn parse_members_at(v: &Vec<char>, i: usize, d: usize) -> (r: Option<
    (Vec<(String, JsonValue)>, usize),
>)
    requires
        i <= v@.len(),
    ensures
        match r {
            Some((ms, j)) => i < j <= v@.len() && p_members(v@.skip(i as int), d as nat)
                == Some((rep_members(ms@), v@.skip(j as int))),
            None => p_members(v@.skip(i as int), d as nat) is None,
        },
    decreases d, v@.len() - i, 1int,
{
    let n = v.len();
    let jw = skip_ws_at(v, i);
    proof {
        lemma_p_members_ws(v@.skip(i as int), d as nat);
    }
    if jw == n {
        proof {
            assert(v@.skip(jw as int).len() == 0);
        }
        return None;
    }
    proof {
        assert(v@.skip(jw as int)[0] == v@[jw as int]);
        assert(!is_ws(v@[jw as int]));
    }
    if v[jw] == '}' {
        let out: Vec<(String, JsonValue)> = Vec::new();
        proof {
            assert(v@.skip(jw as int).skip(1) =~= v@.skip(jw + 1));
            assert(rep_members(out@) =~= Seq::<(Seq<char>, JsonRep)>::empty());
        }
        return Some((out, jw + 1));
    }
    let ghost j0 = jw as int;
    proof {
        assert(p_members(v@.skip(i as int), d as nat) == p_members1(v@.skip(j0), d as nat));
    }
    let mut acc: Vec<(String, JsonValue)> = Vec::new();
    let mut cur = jw;
    proof {
        assert(match p_members1(v@.skip(cur as int), d as nat) {
            Option::Some((ys, f)) => p_members1(v@.skip(j0), d as nat) == Some(
                (rep_members(acc@) + ys, f),
            ),
            Option::None => p_members1(v@.skip(j0), d as nat) is None,
        }) by {
            match p_members1(v@.skip(j0), d as nat) {
                Option::Some((ys, f)) => {
                    assert(rep_members(acc@) + ys =~= ys);
                },
                Option::None => {},
            }
        }
    }
    loop
        invariant
            i <= j0 <= cur <= n,
            n == v@.len(),
            p_members(v@.skip(i as int), d as nat) == p_members1(v@.skip(j0), d as nat),
            match p_members1(v@.skip(cur as int), d as nat) {
                Option::Some((ys, f)) => p_members1(v@.skip(j0), d as nat) == Some(
                    (rep_members(acc@) + ys, f),
                ),
                Option::None => p_members1(v@.skip(j0), d as nat) is None,
            },
        decreases n - cur,
    {
        let jk = skip_ws_at(v, cur);
        proof {
            lemma_p_members1_ws(v@.skip(cur as int), d as nat);
        }
        let ghost sk = v@.skip(jk as int);
        if jk == n {
            proof {
                assert(sk.len() == 0);
            }
            return None;
        }
        proof {
            assert(sk[0] == v@[jk as int]);
            assert(!is_ws(v@[jk as int]));
        }
        if v[jk] != '"' {
            return None;
        }
        proof {
            assert(sk.skip(1) =~= v@.skip(jk + 1));
        }
        match parse_string_at(v, jk + 1) {
            None => {
                return None;
            },
            Some((key, j1)) => {
                proof {
                    assert(v@.skip(j1 as int).len() < sk.len());
                }
                let j2 = skip_ws_at(v, j1);
                proof {
                    lemma_p_member_rest_ws(key@, v@.skip(j1 as int), d as nat);
                }
                let ghost s2 = v@.skip(j2 as int);
                if j2 == n {
                    proof {
                        assert(s2.len() == 0);
                    }
                    return None;
                }
                proof {
                    assert(s2[0] == v@[j2 as int]);
                    assert(!is_ws(v@[j2 as int]));
                }
                if v[j2] != ':' {
                    return None;
                }
                proof {
                    assert(s2.skip(1) =~= v@.skip(j2 + 1));
                }
                match parse_value_at(v, j2 + 1, d) {
                    None => {
                        return None;
                    },
                    Some((x, j3)) => {
                        proof {
                            assert(v@.skip(j3 as int).len() < s2.len());
                        }
                        let j4 = skip_ws_at(v, j3);
                        proof {
                            lemma_p_after_member_ws(v@.skip(j3 as int), d as nat);
                        }
                        let ghost s4 = v@.skip(j4 as int);
                        if j4 < n {
                            proof {
                                assert(s4[0] == v@[j4 as int]);
                                assert(!is_ws(v@[j4 as int]));
                            }
                        }
                        if j4 < n && v[j4] == ',' {
                            proof {
                                assert(s4.skip(1) =~= v@.skip(j4 + 1));
                                assert(p_members1(v@.skip(cur as int), d as nat) == match
                                    p_members1(v@.skip(j4 + 1), d as nat) {
                                    Option::Some((ys2, f)) => Some(
                                        (seq![(key@, rep_of(x))] + ys2, f),
                                    ),
                                    Option::None => None,
                                });
                                lemma_members_shift(
                                    v@.skip(j0),
                                    v@.skip(cur as int),
                                    v@.skip(j4 + 1),
                                    acc@,
                                    (key, x),
                                    d as nat,
                                );
                            }
                            acc.push((key, x));
                            cur = j4 + 1;
                        } else if j4 < n && v[j4] == '}' {
                            proof {
                                assert(s4.skip(1) =~= v@.skip(j4 + 1));
                                assert(p_after_member(s4, d as nat) == Some(
                                    (Seq::<(Seq<char>, JsonRep)>::empty(), v@.skip(j4 + 1)),
                                ));
                                assert(seq![(key@, rep_of(x))] + Seq::<
                                    (Seq<char>, JsonRep),
                                >::empty() =~= seq![(key@, rep_of(x))]);
                                assert(p_members1(v@.skip(cur as int), d as nat) == Some(
                                    (seq![(key@, rep_of(x))], v@.skip(j4 + 1)),
                                ));
                                lemma_rep_members_push(acc@, (key, x));
                                assert(rep_members(acc@) + seq![(key@, rep_of(x))]
                                    =~= rep_members(acc@.push((key, x))));
                            }
                            acc.push((key, x));
                            return Some((acc, j4 + 1));
                        } else {
                            proof {
                                if j4 < n {
                                    assert(p_after_member(s4, d as nat) is None);
                                } else {
                                    assert(s4.len() == 0);
                                }
                            }
                            return None;
                        }
                    },
                }
            },
        }
    }
}

/// Reads a value from JSON text: `Some` exactly when the whole text is one
/// well-formed JSON document, and then the value it denotes.
pub fn parse_json(s: &str) -> (r: Option<JsonValue>)
    ensures
        match r {
            Some(x) => p_doc(s@) == Some(rep_of(x)) && wf_rep(rep_of(x)),
            None => p_doc(s@) is None,
        },
{
    proof {
        lemma_p_doc_wf(s@);
    }
    let cs = chars_vec(s);
    proof {
        assert(cs@.skip(0) =~= cs@);
    }
    match parse_value_at(&cs, 0, MAX_DEPTH) {
        None => None,
        Some((x, j)) => {
            let j2 = skip_ws_at(&cs, j);
            if j2 == cs.len() {
                proof {
                    assert(skip_ws(cs@.skip(j as int)).len() == 0);
                }
                Some(x)
            } else {
                proof {
                    assert(skip_ws(cs@.skip(j as int)).len() > 0);
                }
                None
            }
        },
    }
}

/// Every value the parser yields is well formed: its numbers hold exactly
/// one number literal each, so what was parsed can be encoded again
/// losslessly.
pub proof fn lemma_p_value_wf(s: Seq<char>, d: nat)
    ensures
        p_value(s, d) matches Some((x, sfx)) ==> wf_rep(x),
    decreases d, s.len(), 0int,
{
    if s.len() == 0 {
    } else if is_ws(s[0]) {
        lemma_p_value_wf(s.skip(1), d);
    } else if s[0] == '[' {
        if d > 0 {
            lemma_p_elems_wf(s.skip(1), (d - 1) as nat);
        }
    } else if s[0] == '{' {
        if d > 0 {
            lemma_p_members_wf(s.skip(1), (d - 1) as nat);
        }
    }
}

/// Every element an array parse yields is well formed.
proof fn lemma_p_elems_wf(s: Seq<char>, d: nat)
    ensures
        p_elems(s, d) matches Some((xs, sfx)) ==> forall|i: int|
            0 <= i < xs.len() ==> wf_rep(#[trigger] xs[i]),
    decreases d, s.len(), 3int,
{
    if s.len() == 0 {
    } else if is_ws(s[0]) {
        lemma_p_elems_wf(s.skip(1), d);
    } else if s[0] == ']' {
    } else {
        lemma_p_elems1_wf(s, d);
    }
}

/// Every element a nonempty element-list parse yields is well formed.
proof fn lemma_p_elems1_wf(s: Seq<char>, d: nat)
    ensures
        p_elems1(s, d) matches Some((xs, sfx)) ==> forall|i: int|
            0 <= i < xs.len() ==> wf_rep(#[trigger] xs[i]),
    decreases d, s.len(), 2int,
{
    lemma_p_value_wf(s, d);
    match p_value(s, d) {
        Option::Some((x, s1)) => {
            if s1.len() < s.len() {
                lemma_p_after_elem_wf(s1, d);
                match p_after_elem(s1, d) {
                    Option::Some((rest, sfx)) => {
                        assert forall|i: int|
                            0 <= i < (seq![x] + rest).len() implies wf_rep(
                            #[trigger] (seq![x] + rest)[i],
                        ) by {
                            if i == 0 {
                                assert((seq![x] + rest)[0] == x);
                            } else {
                                assert((seq![x] + rest)[i] == rest[i - 1]);
                            }
                        }
                    },
                    Option::None => {},
                }
            }
        },
        Option::None => {},
    }
}

/// Every further element after a comma is well formed.
proof fn lemma_p_after_elem_wf(s: Seq<char>, d: nat)
    ensures
        p_after_elem(s, d) matches Some((xs, sfx)) ==> forall|i: int|
            0 <= i < xs.len() ==> wf_rep(#[trigger] xs[i]),
    decreases d, s.len(), 1int,
{
    if s.len() == 0 {
    } else if is_ws(s[0]) {
        lemma_p_after_elem_wf(s.skip(1), d);
    } else if s[0] == ',' {
        lemma_p_elems1_wf(s.skip(1), d);
    }
}

/// Every member value an object parse yields is well formed.
proof fn lemma_p_members_wf(s: Seq<char>, d: nat)
    ensures
        p_members(s, d) matches Some((ms, sfx)) ==> forall|i: int|
            0 <= i < ms.len() ==> wf_rep(#[trigger] ms[i].1),
    decreases d, s.len(), 3int,
{
    if s.len() == 0 {
    } else if is_ws(s[0]) {
        lemma_p_members_wf(s.skip(1), d);
    } else if s[0] == '}' {
    } else {
        lemma_p_members1_wf(s, d);
    }
}

/// Every member value of a nonempty member-list parse is well formed.
proof fn lemma_p_members1_wf(s: Seq<char>, d: nat)
    ensures
        p_members1(s, d) matches Some((ms, sfx)) ==> forall|i: int|
            0 <= i < ms.len() ==> wf_rep(#[trigger] ms[i].1),
    decreases d, s.len(), 2int,
{
    if s.len() == 0 {
    } else if is_ws(s[0]) {
        lemma_p_members1_wf(s.skip(1), d);
    } else if s[0] == '"' {
        match p_str_body(s.skip(1)) {
            Option::Some((k, s1)) => {
                if s1.len() < s.len() {
                    lemma_p_member_rest_wf(k, s1, d);
                }
            },
            Option::None => {},
        }
    }
}

/// The value of one member, and every member after it, is well formed.
proof fn lemma_p_member_rest_wf(k: Seq<char>, s: Seq<char>, d: nat)
    ensures
        p_member_rest(k, s, d) matches Some((ms, sfx)) ==> forall|i: int|
            0 <= i < ms.len() ==> wf_rep(#[trigger] ms[i].1),
    decreases d, s.len(), 1int,
{
    if s.len() == 0 {
    } else if is_ws(s[0]) {
        lemma_p_member_rest_wf(k, s.skip(1), d);
    } else if s[0] == ':' {
        lemma_p_value_wf(s.skip(1), d);
        match p_value(s.skip(1), d) {
            Option::Some((x, s2)) => {
                if s2.len() < s.len() {
                    lemma_p_after_member_wf(s2, d);
                    match p_after_member(s2, d) {
                        Option::Some((rest, sfx)) => {
                            assert forall|i: int|
                                0 <= i < (seq![(k, x)] + rest).len() implies wf_rep(
                                #[trigger] (seq![(k, x)] + rest)[i].1,
                            ) by {
                                if i == 0 {
                                    assert((seq![(k, x)] + rest)[0] == (k, x));
                                } else {
                                    assert((seq![(k, x)] + rest)[i] == rest[i - 1]);
                                }
                            }
                        },
                        Option::None => {},
                    }
                }
            },
            Option::None => {},
        }
    }
}

/// Every further member after a comma is well formed.
proof fn lemma_p_after_member_wf(s: Seq<char>, d: nat)
    ensures
        p_after_member(s, d) matches Some((ms, sfx)) ==> forall|i: int|
            0 <= i < ms.len() ==> wf_rep(#[trigger] ms[i].1),
    decreases d, s.len(), 0int,
{
    if s.len() == 0 {
    } else if is_ws(s[0]) {
        lemma_p_after_member_wf(s.skip(1), d);
    } else if s[0] == ',' {
        lemma_p_members1_wf(s.skip(1), d);
    }
}

/// A whole parsed document is well formed.
pub proof fn lemma_p_doc_wf(s: Seq<char>)
    ensures
        p_doc(s) matches Some(x) ==> wf_rep(x),
{
    lemma_p_value_wf(s, MAX_DEPTH as nat);
}

} // verus!
