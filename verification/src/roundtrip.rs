//! The parser reads back exactly what the serializer wrote.
//!
//! The main result, `lemma_doc_roundtrip`, says that the compact text of a
//! well-formed value parses back to that same value. This is what makes the
//! wire encoding lossless.

use vstd::prelude::*;

use crate::json::{
    after_exp_part, after_frac_part, after_int_part, after_number, is_digit, num_lit,
    rep_depth, seq_rep_depth, members_rep_depth, skip_digits, wf_rep, JsonRep,
};
use crate::parse::{
    hex4_ok, hex4_val, hex_val, is_hex, is_ws, p_after_elem, p_after_member, p_doc, p_elems,
    p_elems1, p_member_rest, p_members, p_members1, p_str_body, p_value, skip_ws,
    MAX_DEPTH,
};
use crate::ser::{
    esc_char, hex_char, ser_elems, ser_member, ser_members, ser_rep, ser_str_body, ser_string,
};

verus! {

/// A character that may follow a number token without extending it.
pub open spec fn num_stop(rest: Seq<char>) -> bool {
    rest.len() == 0 || {
        let c = rest[0];
        !(is_digit(c) || c == '.' || c == 'e' || c == 'E' || c == '+' || c == '-')
    }
}

/// How `skip_digits` acts on a concatenation.
proof fn lemma_skip_digits_concat(u: Seq<char>, rest: Seq<char>)
    ensures
        skip_digits(u + rest) == if skip_digits(u).len() > 0 {
            skip_digits(u) + rest
        } else {
            skip_digits(rest)
        },
    decreases u.len(),
{
    if u.len() == 0 {
        assert(u + rest =~= rest);
        assert(skip_digits(u) =~= u);
    } else {
        assert((u + rest)[0] == u[0]);
        if is_digit(u[0]) {
            assert((u + rest).skip(1) =~= u.skip(1) + rest);
            lemma_skip_digits_concat(u.skip(1), rest);
        } else {
            assert(skip_digits(u) == u);
            assert(skip_digits(u + rest) == u + rest);
        }
    }
}

/// `skip_digits` of a sequence that starts with no digit is the sequence.
proof fn lemma_skip_digits_stop(rest: Seq<char>)
    requires
        rest.len() == 0 || !is_digit(rest[0]),
    ensures
        skip_digits(rest) == rest,
{
}

/// A number token followed by a non-extending character scans to exactly
/// that character.
proof fn lemma_after_number_concat(t: Seq<char>, rest: Seq<char>)
    requires
        num_lit(t),
        num_stop(rest),
    ensures
        after_number(t + rest) == Some(rest),
{
    let s = t + rest;
    let a = after_int_part(t)->Some_0;
    let b = after_frac_part(a)->Some_0;
    // integer part
    let t1 = if t.len() > 0 && t[0] == '-' {
        t.skip(1)
    } else {
        t
    };
    let s1 = if s.len() > 0 && s[0] == '-' {
        s.skip(1)
    } else {
        s
    };
    assert(after_int_part(t) is Some);
    assert(t1.len() > 0 && is_digit(t1[0]));
    assert(t.len() > 0);
    assert(s[0] == t[0]);
    if t[0] == '-' {
        assert(s1 =~= t1 + rest);
    } else {
        assert(s1 =~= t1 + rest);
    }
    assert(s1[0] == t1[0]);
    if t1[0] == '0' {
        assert(a == t1.skip(1));
        assert(s1.skip(1) =~= t1.skip(1) + rest);
        assert(after_int_part(s) == Some(a + rest));
    } else {
        assert(a == skip_digits(t1));
        lemma_skip_digits_concat(t1, rest);
        if a.len() > 0 {
            assert(after_int_part(s) == Some(a + rest));
        } else {
            lemma_skip_digits_stop(rest);
            assert(a + rest =~= rest);
            assert(after_int_part(s) == Some(a + rest));
        }
    }
    // fraction part
    assert(after_frac_part(a) is Some);
    let ar = a + rest;
    if a.len() > 0 && a[0] == '.' {
        assert(ar[0] == '.');
        assert(a.len() > 1 && is_digit(a[1]));
        assert(ar[1] == a[1]);
        assert(b == skip_digits(a.skip(1)));
        assert(ar.skip(1) =~= a.skip(1) + rest);
        lemma_skip_digits_concat(a.skip(1), rest);
        if b.len() > 0 {
            assert(after_frac_part(ar) == Some(b + rest));
        } else {
            lemma_skip_digits_stop(rest);
            assert(b + rest =~= rest);
            assert(after_frac_part(ar) == Some(b + rest));
        }
    } else {
        assert(b == a);
        if a.len() > 0 {
            assert(ar[0] == a[0]);
            assert(after_frac_part(ar) == Some(ar));
            assert(ar =~= b + rest);
        } else {
            assert(ar =~= rest);
            if rest.len() > 0 {
                assert(rest[0] != '.');
            }
            assert(after_frac_part(ar) == Some(ar));
            assert(ar =~= b + rest);
        }
    }
    // exponent part
    assert(after_exp_part(b) == Some(Seq::<char>::empty()));
    let br = b + rest;
    if b.len() > 0 && (b[0] == 'e' || b[0] == 'E') {
        assert(br[0] == b[0]);
        let u = if b.len() > 1 && (b[1] == '+' || b[1] == '-') {
            b.skip(2)
        } else {
            b.skip(1)
        };
        let ur = if br.len() > 1 && (br[1] == '+' || br[1] == '-') {
            br.skip(2)
        } else {
            br.skip(1)
        };
        assert(u.len() > 0 && is_digit(u[0]));
        assert(b.len() > 1);
        assert(br[1] == b[1]);
        if b.len() > 1 && (b[1] == '+' || b[1] == '-') {
            assert(ur =~= u + rest);
        } else {
            assert(ur =~= u + rest);
        }
        assert(ur[0] == u[0]);
        assert(skip_digits(u) == Seq::<char>::empty());
        lemma_skip_digits_concat(u, rest);
        lemma_skip_digits_stop(rest);
        assert(after_exp_part(br) == Some(rest));
    } else {
        assert(b.len() == 0);
        assert(br =~= rest);
        if rest.len() > 0 {
            assert(rest[0] != 'e' && rest[0] != 'E');
        }
        assert(after_exp_part(br) == Some(rest));
    }
    assert(after_number(s) == Some(rest));
}

/// A well-formed value's text is nonempty and starts with no whitespace,
/// comma or closing bracket.
proof fn lemma_ser_first(r: JsonRep)
    requires
        wf_rep(r),
    ensures
        ser_rep(r).len() > 0,
        !is_ws(ser_rep(r)[0]),
        ser_rep(r)[0] != ',',
        ser_rep(r)[0] != ']',
        ser_rep(r)[0] != '}',
{
    match r {
        JsonRep::Number(t) => {
            assert(after_int_part(t) is Some);
            let t1 = if t.len() > 0 && t[0] == '-' {
                t.skip(1)
            } else {
                t
            };
            assert(t1.len() > 0 && is_digit(t1[0]));
            assert(t.len() > 0);
            if t[0] != '-' {
                assert(t1[0] == t[0]);
            }
        },
        _ => {},
    }
}

/// Each element's depth is bounded by the sequence's depth.
proof fn lemma_seq_depth_ge(xs: Seq<JsonRep>, i: int)
    requires
        0 <= i < xs.len(),
    ensures
        rep_depth(xs[i]) <= seq_rep_depth(xs),
    decreases xs.len(),
{
    if i > 0 {
        lemma_seq_depth_ge(xs.skip(1), i - 1);
        assert(xs.skip(1)[i - 1] == xs[i]);
    }
}

/// Each member value's depth is bounded by the member list's depth.
proof fn lemma_members_depth_ge(ms: Seq<(Seq<char>, JsonRep)>, i: int)
    requires
        0 <= i < ms.len(),
    ensures
        rep_depth(ms[i].1) <= members_rep_depth(ms),
    decreases ms.len(),
{
    if i > 0 {
        lemma_members_depth_ge(ms.skip(1), i - 1);
        assert(ms.skip(1)[i - 1] == ms[i]);
    }
}

/// A serialized string body followed by its closing quote parses back to
/// the original content.
proof fn lemma_str_body_roundtrip(t: Seq<char>, rest: Seq<char>)
    ensures
        p_str_body(ser_str_body(t) + seq!['"'] + rest) == Some((t, rest)),
    decreases t.len(),
{
    if t.len() == 0 {
        let s = ser_str_body(t) + seq!['"'] + rest;
        assert(s =~= seq!['"'] + rest);
        assert(s[0] == '"');
        assert(s.skip(1) =~= rest);
    } else {
        let c = t[0];
        let u = c as u32;
        let e = esc_char(c);
        let tail = ser_str_body(t.skip(1)) + seq!['"'] + rest;
        let s = ser_str_body(t) + seq!['"'] + rest;
        assert(s =~= e + tail);
        lemma_str_body_roundtrip(t.skip(1), rest);
        assert(seq![c] + t.skip(1) =~= t);
        if c == '"' {
            assert(s[0] == '\\' && s[1] == '"');
            assert(s.skip(2) =~= tail);
        } else if c == '\\' {
            assert(s[0] == '\\' && s[1] == '\\');
            assert(s.skip(2) =~= tail);
        } else if c == '\n' {
            assert(s[0] == '\\' && s[1] == 'n');
            assert(s.skip(2) =~= tail);
        } else if c == '\r' {
            assert(s[0] == '\\' && s[1] == 'r');
            assert(s.skip(2) =~= tail);
        } else if c == '\t' {
            assert(s[0] == '\\' && s[1] == 't');
            assert(s.skip(2) =~= tail);
        } else if u < 32 {
            assert(s[0] == '\\' && s[1] == 'u' && s[2] == '0' && s[3] == '0');
            assert(s[4] == hex_char(u / 16) && s[5] == hex_char(u % 16));
            assert(is_hex('0'));
            lemma_hex_char_val(u / 16);
            lemma_hex_char_val(u % 16);
            assert(hex4_ok(s.skip(2)));
            assert(s.skip(2)[0] == '0' && s.skip(2)[1] == '0');
            assert(s.skip(2)[2] == hex_char(u / 16) && s.skip(2)[3] == hex_char(u % 16));
            assert(hex_val('0') == 0);
            assert(hex4_val(s.skip(2)) == (u / 16) * 16 + u % 16);
            assert((u / 16) * 16 + u % 16 == u) by (nonlinear_arith);
            assert(!(0xD800 <= u < 0xDC00) && !(0xDC00 <= u < 0xE000));
            vstd::utf8::char_u32_cast(c, u);
            assert(s.skip(6) =~= tail);
        } else {
            assert(e =~= seq![c]);
            assert(s[0] == c);
            assert(c != '"' && c != '\\');
            assert(s.skip(1) =~= tail);
        }
    }
}

/// The hexadecimal digit characters carry their value.
proof fn lemma_hex_char_val(n: u32)
    requires
        n < 16,
    ensures
        is_hex(hex_char(n)),
        hex_val(hex_char(n)) == n,
{
    assert(is_hex(hex_char(n)) && hex_val(hex_char(n)) == n);
}

/// Text that may follow a serialized value: nothing, or a delimiter.
pub open spec fn val_stop(rest: Seq<char>) -> bool {
    rest.len() == 0 || rest[0] == ',' || rest[0] == ']' || rest[0] == '}'
}

/// A well-formed value's compact text, followed by a delimiter or nothing,
/// parses back to exactly that value.
#[verifier::rlimit(100)]
#[verifier::spinoff_prover]
pub proof fn lemma_parse_ser(r: JsonRep, rest: Seq<char>, d: nat)
    requires
        wf_rep(r),
        d >= rep_depth(r),
        val_stop(rest),
    ensures
        p_value(ser_rep(r) + rest, d) == Some((r, rest)),
    decreases r,
{
    let s = ser_rep(r) + rest;
    lemma_ser_first(r);
    match r {
        JsonRep::Null => {
            assert(s[0] == 'n' && s[1] == 'u' && s[2] == 'l' && s[3] == 'l');
            assert(s.skip(4) =~= rest);
        },
        JsonRep::Bool(b) => {
            if b {
                assert(s[0] == 't' && s[1] == 'r' && s[2] == 'u' && s[3] == 'e');
                assert(s.skip(4) =~= rest);
            } else {
                assert(s[0] == 'f' && s[1] == 'a' && s[2] == 'l' && s[3] == 's' && s[4] == 'e');
                assert(s.skip(5) =~= rest);
            }
        },
        JsonRep::Number(t) => {
            assert(after_int_part(t) is Some);
            let t1 = if t.len() > 0 && t[0] == '-' {
                t.skip(1)
            } else {
                t
            };
            assert(t1.len() > 0 && is_digit(t1[0]));
            if t[0] != '-' {
                assert(t1[0] == t[0]);
            }
            assert(s[0] == t[0]);
            assert(t[0] == '-' || is_digit(t[0]));
            lemma_after_number_concat(t, rest);
            assert(after_number(s) == Some(rest));
            assert(s.take(s.len() - rest.len()) =~= t);
        },
        JsonRep::Text(t) => {
            assert(s[0] == '"');
            assert(s.skip(1) =~= ser_str_body(t) + seq!['"'] + rest);
            lemma_str_body_roundtrip(t, rest);
        },
        JsonRep::Array(xs) => {
            assert(rep_depth(r) == 1 + seq_rep_depth(xs));
            assert(d > 0);
            assert(s[0] == '[');
            let inner = ser_elems(xs) + seq![']'] + rest;
            assert(s.skip(1) =~= inner);
            if xs.len() == 0 {
                assert(ser_elems(xs) =~= Seq::<char>::empty());
                assert(inner =~= seq![']'] + rest);
                assert(inner[0] == ']');
                assert(inner.skip(1) =~= rest);
                assert(p_elems(inner, (d - 1) as nat) == Some(
                    (Seq::<JsonRep>::empty(), rest),
                ));
                assert(xs =~= Seq::<JsonRep>::empty());
            } else {
                lemma_parse_ser_elems1(xs, rest, (d - 1) as nat);
                lemma_ser_first(xs[0]);
                assert(ser_elems(xs)[0] == ser_rep(xs[0])[0]);
                assert(inner[0] == ser_rep(xs[0])[0]);
                assert(p_elems(inner, (d - 1) as nat) == p_elems1(inner, (d - 1) as nat));
            }
        },
        JsonRep::Object(ms) => {
            assert(rep_depth(r) == 1 + members_rep_depth(ms));
            assert(d > 0);
            assert(s[0] == '{');
            let inner = ser_members(ms) + seq!['}'] + rest;
            assert(s.skip(1) =~= inner);
            if ms.len() == 0 {
                assert(ser_members(ms) =~= Seq::<char>::empty());
                assert(inner =~= seq!['}'] + rest);
                assert(inner[0] == '}');
                assert(inner.skip(1) =~= rest);
                assert(p_members(inner, (d - 1) as nat) == Some(
                    (Seq::<(Seq<char>, JsonRep)>::empty(), rest),
                ));
                assert(ms =~= Seq::<(Seq<char>, JsonRep)>::empty());
            } else {
                lemma_parse_ser_members1(ms, rest, (d - 1) as nat);
                assert(ser_members(ms)[0] == ser_member(ms[0])[0]);
                assert(ser_member(ms[0])[0] == '"');
                assert(inner[0] == '"');
                assert(p_members(inner, (d - 1) as nat) == p_members1(inner, (d - 1) as nat));
            }
        },
    }
}

/// One or more serialized elements, the closing bracket and a tail parse
/// back to exactly those elements.
proof fn lemma_parse_ser_elems1(xs: Seq<JsonRep>, rest: Seq<char>, d: nat)
    requires
        xs.len() > 0,
        forall|i: int| 0 <= i < xs.len() ==> wf_rep(#[trigger] xs[i]),
        d >= seq_rep_depth(xs),
    ensures
        p_elems1(ser_elems(xs) + seq![']'] + rest, d) == Some((xs, rest)),
    decreases xs,
{
    let s = ser_elems(xs) + seq![']'] + rest;
    let x = xs[0];
    lemma_ser_first(x);
    lemma_seq_depth_ge(xs, 0);
    if xs.len() == 1 {
        let rest2 = seq![']'] + rest;
        assert(s =~= ser_rep(x) + rest2);
        lemma_parse_ser(x, rest2, d);
        assert(p_value(s, d) == Some((x, rest2)));
        assert(rest2.len() < s.len());
        assert(rest2[0] == ']');
        assert(!is_ws(']'));
        assert(p_after_elem(rest2, d) == Some((Seq::<JsonRep>::empty(), rest2.skip(1))));
        assert(rest2.skip(1) =~= rest);
        assert(seq![x] + Seq::<JsonRep>::empty() =~= xs);
    } else {
        let tail = ser_elems(xs.skip(1)) + seq![']'] + rest;
        let rest2 = seq![','] + tail;
        assert(ser_elems(xs) == ser_rep(x) + seq![','] + ser_elems(xs.skip(1)));
        assert(s =~= ser_rep(x) + rest2);
        lemma_parse_ser(x, rest2, d);
        assert(p_value(s, d) == Some((x, rest2)));
        assert(rest2.len() < s.len());
        assert(rest2[0] == ',');
        assert(!is_ws(','));
        assert(rest2.skip(1) =~= tail);
        assert(forall|i: int|
            0 <= i < xs.skip(1).len() ==> wf_rep(#[trigger] xs.skip(1)[i]));
        assert(seq_rep_depth(xs.skip(1)) <= seq_rep_depth(xs));
        lemma_parse_ser_elems1(xs.skip(1), rest, d);
        assert(p_elems1(tail, d) == Some((xs.skip(1), rest)));
        assert(p_after_elem(rest2, d) == Some((xs.skip(1), rest)));
        assert(seq![x] + xs.skip(1) =~= xs);
    }
}

/// One or more serialized members, the closing brace and a tail parse back
/// to exactly those members.
#[verifier::rlimit(100)]
#[verifier::spinoff_prover]
proof fn lemma_parse_ser_members1(ms: Seq<(Seq<char>, JsonRep)>, rest: Seq<char>, d: nat)
    requires
        ms.len() > 0,
        forall|i: int| 0 <= i < ms.len() ==> wf_rep(#[trigger] ms[i].1),
        d >= members_rep_depth(ms),
    ensures
        p_members1(ser_members(ms) + seq!['}'] + rest, d) == Some((ms, rest)),
    decreases ms,
{
    let s = ser_members(ms) + seq!['}'] + rest;
    let m = ms[0];
    lemma_ser_first(m.1);
    lemma_members_depth_ge(ms, 0);
    let rest4 = if ms.len() == 1 {
        seq!['}'] + rest
    } else {
        seq![','] + (ser_members(ms.skip(1)) + seq!['}'] + rest)
    };
    let rest3 = seq![':'] + (ser_rep(m.1) + rest4);
    if ms.len() == 1 {
        assert(s =~= ser_member(m) + seq!['}'] + rest);
        assert(ser_member(m) == ser_string(m.0) + seq![':'] + ser_rep(m.1));
        assert(s =~= seq!['"'] + (ser_str_body(m.0) + seq!['"'] + rest3));
    } else {
        assert(ser_members(ms) == ser_member(m) + seq![','] + ser_members(ms.skip(1)));
        assert(ser_member(m) == ser_string(m.0) + seq![':'] + ser_rep(m.1));
        assert(s =~= seq!['"'] + (ser_str_body(m.0) + seq!['"'] + rest3));
    }
    assert(s[0] == '"');
    assert(s.skip(1) =~= ser_str_body(m.0) + seq!['"'] + rest3);
    lemma_str_body_roundtrip(m.0, rest3);
    assert(p_str_body(s.skip(1)) == Some((m.0, rest3)));
    assert(rest3.len() < s.len());
    assert(rest3[0] == ':');
    assert(!is_ws(':'));
    assert(rest3.skip(1) =~= ser_rep(m.1) + rest4);
    assert(val_stop(rest4));
    lemma_parse_ser(m.1, rest4, d);
    assert(p_value(rest3.skip(1), d) == Some((m.1, rest4)));
    assert(rest4.len() < rest3.len());
    if ms.len() == 1 {
        assert(rest4[0] == '}');
        assert(!is_ws('}'));
        assert(p_after_member(rest4, d) == Some(
            (Seq::<(Seq<char>, JsonRep)>::empty(), rest4.skip(1)),
        ));
        assert(rest4.skip(1) =~= rest);
        assert((m.0, m.1) == m);
        assert(seq![(m.0, m.1)] + Seq::<(Seq<char>, JsonRep)>::empty() =~= ms);
        assert(p_member_rest(m.0, rest3, d) == Some((ms, rest)));
        assert(p_members1(s, d) == p_member_rest(m.0, rest3, d));
    } else {
        let tail = ser_members(ms.skip(1)) + seq!['}'] + rest;
        assert(rest4[0] == ',');
        assert(!is_ws(','));
        assert(rest4.skip(1) =~= tail);
        assert(forall|i: int|
            0 <= i < ms.skip(1).len() ==> wf_rep(#[trigger] ms.skip(1)[i].1));
        assert(members_rep_depth(ms.skip(1)) <= members_rep_depth(ms));
        lemma_parse_ser_members1(ms.skip(1), rest, d);
        assert(p_members1(tail, d) == Some((ms.skip(1), rest)));
        assert(p_after_member(rest4, d) == Some((ms.skip(1), rest)));
        assert((m.0, m.1) == m);
        assert(seq![(m.0, m.1)] + ms.skip(1) =~= ms);
        assert(p_member_rest(m.0, rest3, d) == Some((ms, rest)));
        assert(p_members1(s, d) == p_member_rest(m.0, rest3, d));
    }
}

/// Round trip: the compact text of a well-formed value parses back to that
/// same value.
pub proof fn lemma_doc_roundtrip(r: JsonRep)
    requires
        wf_rep(r),
        rep_depth(r) <= MAX_DEPTH as nat,
    ensures
        p_doc(ser_rep(r)) == Some(r),
{
    lemma_parse_ser(r, Seq::empty(), MAX_DEPTH as nat);
    assert(ser_rep(r) + Seq::<char>::empty() =~= ser_rep(r));
    assert(p_value(ser_rep(r), MAX_DEPTH as nat) == Some((r, Seq::<char>::empty())));
    assert(skip_ws(Seq::<char>::empty()).len() == 0);
}

} // verus!
