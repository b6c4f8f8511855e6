//! Rendering a value as compact JSON text.
//!
//! `ser_rep` is the mathematical statement of the encoding; `write_value`
//! produces exactly that text. The encoding emits no whitespace, escapes
//! `"`, `\` and control characters inside strings, and writes numbers as
//! their stored literal.

use vstd::prelude::*;

use crate::chars::{chars_vec, string_of_chars};
use crate::json::{rep_of, JsonRep, JsonValue};

verus! {

/// The lower-case hexadecimal digit for `n`.
pub open spec fn hex_char(n: u32) -> char {
    if n == 0 {
        '0'
    } else if n == 1 {
        '1'
    } else if n == 2 {
        '2'
    } else if n == 3 {
        '3'
    } else if n == 4 {
        '4'
    } else if n == 5 {
        '5'
    } else if n == 6 {
        '6'
    } else if n == 7 {
        '7'
    } else if n == 8 {
        '8'
    } else if n == 9 {
        '9'
    } else if n == 10 {
        'a'
    } else if n == 11 {
        'b'
    } else if n == 12 {
        'c'
    } else if n == 13 {
        'd'
    } else if n == 14 {
        'e'
    } else {
        'f'
    }
}

/// How one character is written inside a JSON string.
pub open spec fn esc_char(c: char) -> Seq<char> {
    if c == '"' {
        seq!['\\', '"']
    } else if c == '\\' {
        seq!['\\', '\\']
    } else if c == '\n' {
        seq!['\\', 'n']
    } else if c == '\r' {
        seq!['\\', 'r']
    } else if c == '\t' {
        seq!['\\', 't']
    } else if (c as u32) < 32 {
        seq!['\\', 'u', '0', '0', hex_char((c as u32) / 16), hex_char((c as u32) % 16)]
    } else {
        seq![c]
    }
}

/// The body of a JSON string: each character escaped as needed.
pub open spec fn ser_str_body(t: Seq<char>) -> Seq<char>
    decreases t.len(),
{
    if t.len() == 0 {
        Seq::empty()
    } else {
        esc_char(t[0]) + ser_str_body(t.skip(1))
    }
}

/// A quoted JSON string.
pub open spec fn ser_string(t: Seq<char>) -> Seq<char> {
    seq!['"'] + ser_str_body(t) + seq!['"']
}

/// The compact JSON text of a value.
pub open spec fn ser_rep(r: JsonRep) -> Seq<char>
    decreases r,
{
    match r {
        JsonRep::Null => seq!['n', 'u', 'l', 'l'],
        JsonRep::Bool(b) => if b {
            seq!['t', 'r', 'u', 'e']
        } else {
            seq!['f', 'a', 'l', 's', 'e']
        },
        JsonRep::Number(t) => t,
        JsonRep::Text(t) => ser_string(t),
        JsonRep::Array(xs) => seq!['['] + ser_elems(xs) + seq![']'],
        JsonRep::Object(ms) => seq!['{'] + ser_members(ms) + seq!['}'],
    }
}

/// Array elements joined by commas.
pub open spec fn ser_elems(xs: Seq<JsonRep>) -> Seq<char>
    decreases xs,
{
    if xs.len() == 0 {
        Seq::empty()
    } else if xs.len() == 1 {
        ser_rep(xs[0])
    } else {
        ser_rep(xs[0]) + seq![','] + ser_elems(xs.skip(1))
    }
}

/// One object member: quoted key, colon, value.
pub open spec fn ser_member(m: (Seq<char>, JsonRep)) -> Seq<char>
    decreases m,
{
    ser_string(m.0) + seq![':'] + ser_rep(m.1)
}

/// Object members joined by commas.
pub open spec fn ser_members(ms: Seq<(Seq<char>, JsonRep)>) -> Seq<char>
    decreases ms,
{
    if ms.len() == 0 {
        Seq::empty()
    } else if ms.len() == 1 {
        ser_member(ms[0])
    } else {
        ser_member(ms[0]) + seq![','] + ser_members(ms.skip(1))
    }
}

/// Appending one character to a string body appends its escape.
pub proof fn lemma_ser_str_body_push(t: Seq<char>, c: char)
    ensures
        ser_str_body(t.push(c)) == ser_str_body(t) + esc_char(c),
    decreases t.len(),
{
    if t.len() == 0 {
        assert(t.push(c)[0] == c);
        assert(t.push(c).skip(1) =~= Seq::<char>::empty());
        assert(ser_str_body(Seq::<char>::empty()) =~= Seq::<char>::empty());
        assert(ser_str_body(t.push(c)) =~= esc_char(c));
        assert(ser_str_body(t) =~= Seq::<char>::empty());
        assert(ser_str_body(t.push(c)) =~= ser_str_body(t) + esc_char(c));
    } else {
        assert(t.push(c).skip(1) =~= t.skip(1).push(c));
        lemma_ser_str_body_push(t.skip(1), c);
        assert(t.push(c)[0] == t[0]);
        assert(ser_str_body(t.push(c)) =~= ser_str_body(t) + esc_char(c));
    }
}

/// Appending one element appends a comma (if needed) and its text.
pub proof fn lemma_ser_elems_push(xs: Seq<JsonRep>, x: JsonRep)
    ensures
        ser_elems(xs.push(x)) == if xs.len() == 0 {
            ser_rep(x)
        } else {
            ser_elems(xs) + seq![','] + ser_rep(x)
        },
    decreases xs.len(),
{
    if xs.len() == 0 {
        assert(xs.push(x)[0] == x);
        assert(ser_elems(xs.push(x)) == ser_rep(x));
    } else {
        assert(xs.push(x).skip(1) =~= xs.skip(1).push(x));
        lemma_ser_elems_push(xs.skip(1), x);
        assert(xs.push(x)[0] == xs[0]);
        if xs.len() == 1 {
            assert(ser_elems(xs.push(x)) =~= ser_elems(xs) + seq![','] + ser_rep(x));
        } else {
            assert(ser_elems(xs.push(x)) =~= ser_elems(xs) + seq![','] + ser_rep(x));
        }
    }
}

/// Appending one member appends a comma (if needed) and its text.
pub proof fn lemma_ser_members_push(ms: Seq<(Seq<char>, JsonRep)>, m: (Seq<char>, JsonRep))
    ensures
        ser_members(ms.push(m)) == if ms.len() == 0 {
            ser_member(m)
        } else {
            ser_members(ms) + seq![','] + ser_member(m)
        },
    decreases ms.len(),
{
    if ms.len() == 0 {
        assert(ms.push(m)[0] == m);
        assert(ser_members(ms.push(m)) == ser_member(m));
    } else {
        assert(ms.push(m).skip(1) =~= ms.skip(1).push(m));
        lemma_ser_members_push(ms.skip(1), m);
        assert(ms.push(m)[0] == ms[0]);
        assert(ser_members(ms.push(m)) =~= ser_members(ms) + seq![','] + ser_member(m));
    }
}

/// The lower-case hexadecimal digit for `n`, executably.
pub fn hex_char_of(n: u32) -> (r: char)
    requires
        n < 16,
    ensures
        r == hex_char(n),
{
    if n == 0 {
        '0'
    } else if n == 1 {
        '1'
    } else if n == 2 {
        '2'
    } else if n == 3 {
        '3'
    } else if n == 4 {
        '4'
    } else if n == 5 {
        '5'
    } else if n == 6 {
        '6'
    } else if n == 7 {
        '7'
    } else if n == 8 {
        '8'
    } else if n == 9 {
        '9'
    } else if n == 10 {
        'a'
    } else if n == 11 {
        'b'
    } else if n == 12 {
        'c'
    } else if n == 13 {
        'd'
    } else if n == 14 {
        'e'
    } else {
        'f'
    }
}

/// Writes the escape of `c`.
fn write_escaped(c: char, out: &mut Vec<char>)
    ensures
        final(out)@ == old(out)@ + esc_char(c),
{
    let u = c as u32;
    if c == '"' {
        out.push('\\');
        out.push('"');
        assert(out@ =~= old(out)@ + esc_char(c));
    } else if c == '\\' {
        out.push('\\');
        out.push('\\');
        assert(out@ =~= old(out)@ + esc_char(c));
    } else if c == '\n' {
        out.push('\\');
        out.push('n');
        assert(out@ =~= old(out)@ + esc_char(c));
    } else if c == '\r' {
        out.push('\\');
        out.push('r');
        assert(out@ =~= old(out)@ + esc_char(c));
    } else if c == '\t' {
        out.push('\\');
        out.push('t');
        assert(out@ =~= old(out)@ + esc_char(c));
    } else if u < 32 {
        out.push('\\');
        out.push('u');
        out.push('0');
        out.push('0');
        out.push(hex_char_of(u / 16));
        out.push(hex_char_of(u % 16));
        assert(out@ =~= old(out)@ + esc_char(c));
    } else {
        out.push(c);
        assert(out@ =~= old(out)@ + esc_char(c));
    }
}

/// Writes the body of a JSON string.
fn write_str_body(s: &str, out: &mut Vec<char>)
    ensures
        final(out)@ == old(out)@ + ser_str_body(s@),
{
    let cs = chars_vec(s);
    let ghost base = out@;
    let n = cs.len();
    let mut i: usize = 0;
    assert(cs@.take(0) =~= Seq::<char>::empty());
    assert(base + ser_str_body(cs@.take(0)) =~= base);
    while i < n
        invariant
            n == cs@.len(),
            cs@ == s@,
            i <= n,
            out@ == base + ser_str_body(cs@.take(i as int)),
        decreases n - i,
    {
        write_escaped(cs[i], out);
        proof {
            lemma_ser_str_body_push(cs@.take(i as int), cs@[i as int]);
            assert(cs@.take(i + 1) =~= cs@.take(i as int).push(cs@[i as int]));
            assert(base + ser_str_body(cs@.take(i as int)) + esc_char(cs@[i as int]) =~= base
                + ser_str_body(cs@.take(i + 1)));
        }
        i = i + 1;
    }
    assert(cs@.take(n as int) =~= s@);
}

/// Writes a quoted JSON string.
fn write_string(s: &str, out: &mut Vec<char>)
    ensures
        final(out)@ == old(out)@ + ser_string(s@),
{
    out.push('"');
    write_str_body(s, out);
    out.push('"');
    assert(out@ =~= old(out)@ + ser_string(s@));
}

/// Writes the compact JSON text of a value.
pub fn write_value(v: &JsonValue, out: &mut Vec<char>)
    ensures
        final(out)@ == old(out)@ + ser_rep(rep_of(*v)),
    decreases *v,
{
    match v {
        JsonValue::Null => {
            out.push('n');
            out.push('u');
            out.push('l');
            out.push('l');
            assert(out@ =~= old(out)@ + ser_rep(rep_of(*v)));
        },
        JsonValue::Bool(b) => {
            if *b {
                out.push('t');
                out.push('r');
                out.push('u');
                out.push('e');
            } else {
                out.push('f');
                out.push('a');
                out.push('l');
                out.push('s');
                out.push('e');
            }
            assert(out@ =~= old(out)@ + ser_rep(rep_of(*v)));
        },
        JsonValue::Number(s) => {
            let mut cv = chars_vec(s.as_str());
            out.append(&mut cv);
        },
        JsonValue::Text(s) => {
            write_string(s.as_str(), out);
        },
        JsonValue::Array(xs) => {
            let ghost rs = rep_of(*v)->Array_0;
            proof {
                assert(rs.len() == xs@.len());
            }
            out.push('[');
            let ghost base = out@;
            let n = xs.len();
            let mut i: usize = 0;
            assert(rs.take(0) =~= Seq::<JsonRep>::empty());
            assert(out@ =~= base + ser_elems(rs.take(0)));
            while i < n
                invariant
                    n == xs@.len(),
                    rs.len() == xs@.len(),
                    rs == rep_of(*v)->Array_0,
                    *v matches JsonValue::Array(xs2) && xs2@ == xs@,
                    forall|j: int| 0 <= j < n ==> rs[j] == rep_of(#[trigger] xs@[j]),
                    i <= n,
                    out@ == base + ser_elems(rs.take(i as int)),
                decreases n - i,
            {
                if i > 0 {
                    out.push(',');
                }
                proof {
                    assert(decreases_to!(*v => xs@[i as int]));
                }
                write_value(&xs[i], out);
                proof {
                    lemma_ser_elems_push(rs.take(i as int), rs[i as int]);
                    assert(rs.take(i + 1) =~= rs.take(i as int).push(rs[i as int]));
                    if i == 0 {
                        assert(out@ =~= base + ser_elems(rs.take(i + 1)));
                    } else {
                        assert(out@ =~= base + ser_elems(rs.take(i + 1)));
                    }
                }
                i = i + 1;
            }
            out.push(']');
            proof {
                assert(rs.take(n as int) =~= rs);
                assert(out@ =~= old(out)@ + ser_rep(rep_of(*v)));
            }
        },
        JsonValue::Object(ms) => {
            let ghost rms = rep_of(*v)->Object_0;
            proof {
                assert(rms.len() == ms@.len());
            }
            out.push('{');
            let ghost base = out@;
            let n = ms.len();
            let mut i: usize = 0;
            assert(rms.take(0) =~= Seq::<(Seq<char>, JsonRep)>::empty());
            assert(out@ =~= base + ser_members(rms.take(0)));
            while i < n
                invariant
                    n == ms@.len(),
                    rms.len() == ms@.len(),
                    rms == rep_of(*v)->Object_0,
                    *v matches JsonValue::Object(ms2) && ms2@ == ms@,
                    forall|j: int|
                        0 <= j < n ==> rms[j] == (ms@[j].0@, rep_of(#[trigger] ms@[j].1)),
                    i <= n,
                    out@ == base + ser_members(rms.take(i as int)),
                decreases n - i,
            {
                if i > 0 {
                    out.push(',');
                }
                write_string(ms[i].0.as_str(), out);
                out.push(':');
                proof {
                    assert(decreases_to!(*v => ms@[i as int].1));
                }
                write_value(&ms[i].1, out);
                proof {
                    lemma_ser_members_push(rms.take(i as int), rms[i as int]);
                    assert(rms.take(i + 1) =~= rms.take(i as int).push(rms[i as int]));
                    assert(out@ =~= base + ser_members(rms.take(i + 1)));
                }
                i = i + 1;
            }
            out.push('}');
            proof {
                assert(rms.take(n as int) =~= rms);
                assert(out@ =~= old(out)@ + ser_rep(rep_of(*v)));
            }
        },
    }
}

/// The compact JSON text of a value, as a string.
pub fn to_json_text(v: &JsonValue) -> (r: String)
    ensures
        r@ == ser_rep(v@),
{
    let mut out: Vec<char> = Vec::new();
    write_value(v, &mut out);
    string_of_chars(&out)
}

/// The indentation one level deeper; it stops growing at the type's limit.
pub open spec fn next_ind(ind: nat) -> nat {
    if ind + 2 <= usize::MAX {
        (ind + 2) as nat
    } else {
        ind
    }
}

/// `n` spaces.
pub open spec fn spaces(n: nat) -> Seq<char>
    decreases n,
{
    if n == 0 {
        Seq::empty()
    } else {
        spaces((n - 1) as nat).push(' ')
    }
}

/// The pretty JSON text of a value at indentation `ind`: two-space indents,
/// one element or member per line.
pub open spec fn pser_rep(r: JsonRep, ind: nat) -> Seq<char>
    decreases r,
{
    match r {
        JsonRep::Array(xs) => if xs.len() == 0 {
            seq!['[', ']']
        } else {
            seq!['[', '\n'] + pser_elems(xs, next_ind(ind)) + seq!['\n'] + spaces(ind) + seq![']']
        },
        JsonRep::Object(ms) => if ms.len() == 0 {
            seq!['{', '}']
        } else {
            seq!['{', '\n'] + pser_members(ms, next_ind(ind)) + seq!['\n'] + spaces(ind) + seq!['}']
        },
        _ => ser_rep(r),
    }
}

/// Pretty elements, each on its own indented line.
pub open spec fn pser_elems(xs: Seq<JsonRep>, ind: nat) -> Seq<char>
    decreases xs,
{
    if xs.len() == 0 {
        Seq::empty()
    } else if xs.len() == 1 {
        spaces(ind) + pser_rep(xs[0], ind)
    } else {
        spaces(ind) + pser_rep(xs[0], ind) + seq![',', '\n'] + pser_elems(xs.skip(1), ind)
    }
}

/// One pretty member: indented quoted key, colon, space, value.
pub open spec fn pser_member(m: (Seq<char>, JsonRep), ind: nat) -> Seq<char>
    decreases m,
{
    spaces(ind) + ser_string(m.0) + seq![':', ' '] + pser_rep(m.1, ind)
}

/// Pretty members, each on its own indented line.
pub open spec fn pser_members(ms: Seq<(Seq<char>, JsonRep)>, ind: nat) -> Seq<char>
    decreases ms,
{
    if ms.len() == 0 {
        Seq::empty()
    } else if ms.len() == 1 {
        pser_member(ms[0], ind)
    } else {
        pser_member(ms[0], ind) + seq![',', '\n'] + pser_members(ms.skip(1), ind)
    }
}

/// Appending one element appends a separator (if needed) and its line.
pub proof fn lemma_pser_elems_push(xs: Seq<JsonRep>, x: JsonRep, ind: nat)
    ensures
        pser_elems(xs.push(x), ind) == if xs.len() == 0 {
            spaces(ind) + pser_rep(x, ind)
        } else {
            pser_elems(xs, ind) + seq![',', '\n'] + spaces(ind) + pser_rep(x, ind)
        },
    decreases xs.len(),
{
    if xs.len() == 0 {
        assert(xs.push(x)[0] == x);
        assert(pser_elems(xs.push(x), ind) == spaces(ind) + pser_rep(x, ind));
    } else {
        assert(xs.push(x).skip(1) =~= xs.skip(1).push(x));
        lemma_pser_elems_push(xs.skip(1), x, ind);
        assert(xs.push(x)[0] == xs[0]);
        assert(pser_elems(xs.push(x), ind) =~= pser_elems(xs, ind) + seq![',', '\n'] + spaces(
            ind,
        ) + pser_rep(x, ind));
    }
}

/// Appending one member appends a separator (if needed) and its line.
pub proof fn lemma_pser_members_push(ms: Seq<(Seq<char>, JsonRep)>, m: (Seq<char>, JsonRep), ind: nat)
    ensures
        pser_members(ms.push(m), ind) == if ms.len() == 0 {
            pser_member(m, ind)
        } else {
            pser_members(ms, ind) + seq![',', '\n'] + pser_member(m, ind)
        },
    decreases ms.len(),
{
    if ms.len() == 0 {
        assert(ms.push(m)[0] == m);
        assert(pser_members(ms.push(m), ind) == pser_member(m, ind));
    } else {
        assert(ms.push(m).skip(1) =~= ms.skip(1).push(m));
        lemma_pser_members_push(ms.skip(1), m, ind);
        assert(ms.push(m)[0] == ms[0]);
        assert(pser_members(ms.push(m), ind) =~= pser_members(ms, ind) + seq![',', '\n']
            + pser_member(m, ind));
    }
}

/// Writes `ind` spaces.
fn write_spaces(ind: usize, out: &mut Vec<char>)
    ensures
        final(out)@ == old(out)@ + spaces(ind as nat),
{
    let mut k: usize = 0;
    proof {
        assert(old(out)@ + spaces(0) =~= old(out)@);
    }
    while k < ind
        invariant
            k <= ind,
            out@ == old(out)@ + spaces(k as nat),
        decreases ind - k,
    {
        out.push(' ');
        proof {
            assert(old(out)@ + spaces((k + 1) as nat) =~= (old(out)@ + spaces(k as nat)).push(
                ' ',
            ));
        }
        k = k + 1;
    }
}

/// Writes the pretty JSON text of a value at indentation `ind`.
#[verifier::rlimit(100)]
#[verifier::spinoff_prover]
pub fn write_pretty(v: &JsonValue, ind: usize, out: &mut Vec<char>)
    ensures
        final(out)@ == old(out)@ + pser_rep(rep_of(*v), ind as nat),
    decreases *v,
{
    match v {
        JsonValue::Array(xs) => {
            let ghost rs = rep_of(*v)->Array_0;
            proof {
                assert(rs.len() == xs@.len());
            }
            if xs.len() == 0 {
                out.push('[');
                out.push(']');
                assert(out@ =~= old(out)@ + pser_rep(rep_of(*v), ind as nat));
            } else {
                let nind: usize = if ind <= usize::MAX - 2 {
                    ind + 2
                } else {
                    ind
                };
                out.push('[');
                out.push('\n');
                let ghost base = out@;
                let n = xs.len();
                let mut i: usize = 0;
                assert(rs.take(0) =~= Seq::<JsonRep>::empty());
                assert(out@ =~= base + pser_elems(rs.take(0), nind as nat));
                while i < n
                    invariant
                        0 < n == xs@.len(),
                        rs.len() == xs@.len(),
                        rs == rep_of(*v)->Array_0,
                        *v matches JsonValue::Array(xs2) && xs2@ == xs@,
                        forall|j: int| 0 <= j < n ==> rs[j] == rep_of(#[trigger] xs@[j]),
                        i <= n,
                        nind as nat == next_ind(ind as nat),
                        out@ == base + pser_elems(rs.take(i as int), nind as nat),
                    decreases n - i,
                {
                    if i > 0 {
                        out.push(',');
                        out.push('\n');
                    }
                    write_spaces(nind, out);
                    proof {
                        assert(decreases_to!(*v => xs@[i as int]));
                    }
                    write_pretty(&xs[i], nind, out);
                    proof {
                        lemma_pser_elems_push(rs.take(i as int), rs[i as int], nind as nat);
                        assert(rs.take(i + 1) =~= rs.take(i as int).push(rs[i as int]));
                        assert(out@ =~= base + pser_elems(rs.take(i + 1), nind as nat));
                    }
                    i = i + 1;
                }
                out.push('\n');
                write_spaces(ind, out);
                out.push(']');
                proof {
                    assert(rs.take(n as int) =~= rs);
                    assert(out@ =~= old(out)@ + pser_rep(rep_of(*v), ind as nat));
                }
            }
        },
        JsonValue::Object(ms) => {
            let ghost rms = rep_of(*v)->Object_0;
            proof {
                assert(rms.len() == ms@.len());
            }
            if ms.len() == 0 {
                out.push('{');
                out.push('}');
                assert(out@ =~= old(out)@ + pser_rep(rep_of(*v), ind as nat));
            } else {
                let nind: usize = if ind <= usize::MAX - 2 {
                    ind + 2
                } else {
                    ind
                };
                out.push('{');
                out.push('\n');
                let ghost base = out@;
                let n = ms.len();
                let mut i: usize = 0;
                assert(rms.take(0) =~= Seq::<(Seq<char>, JsonRep)>::empty());
                assert(out@ =~= base + pser_members(rms.take(0), nind as nat));
                while i < n
                    invariant
                        0 < n == ms@.len(),
                        rms.len() == ms@.len(),
                        rms == rep_of(*v)->Object_0,
                        *v matches JsonValue::Object(ms2) && ms2@ == ms@,
                        forall|j: int|
                            0 <= j < n ==> rms[j] == (ms@[j].0@, rep_of(#[trigger] ms@[j].1)),
                        i <= n,
                        nind as nat == next_ind(ind as nat),
                        out@ == base + pser_members(rms.take(i as int), nind as nat),
                    decreases n - i,
                {
                    if i > 0 {
                        out.push(',');
                        out.push('\n');
                    }
                    write_spaces(nind, out);
                    write_string(ms[i].0.as_str(), out);
                    out.push(':');
                    out.push(' ');
                    proof {
                        assert(decreases_to!(*v => ms@[i as int].1));
                    }
                    write_pretty(&ms[i].1, nind, out);
                    proof {
                        lemma_pser_members_push(
                            rms.take(i as int),
                            rms[i as int],
                            nind as nat,
                        );
                        assert(rms.take(i + 1) =~= rms.take(i as int).push(rms[i as int]));
                        assert(out@ =~= base + pser_members(rms.take(i + 1), nind as nat));
                    }
                    i = i + 1;
                }
                out.push('\n');
                write_spaces(ind, out);
                out.push('}');
                proof {
                    assert(rms.take(n as int) =~= rms);
                    assert(out@ =~= old(out)@ + pser_rep(rep_of(*v), ind as nat));
                }
            }
        },
        _ => {
            write_value(v, out);
            assert(out@ =~= old(out)@ + pser_rep(rep_of(*v), ind as nat));
        },
    }
}

/// The pretty JSON text of a value, as a string.
pub fn to_json_pretty(v: &JsonValue) -> (r: String)
    ensures
        r@ == pser_rep(v@, 0),
{
    let mut out: Vec<char> = Vec::new();
    write_pretty(v, 0, &mut out);
    string_of_chars(&out)
}

} // verus!
