//! The structured values carried by tool requests and results.
//!
//! A `JsonValue` is the library's own model of a JSON document. Numbers are
//! kept as their literal text, so a value round-trips through the wire
//! encoding without loss.

use vstd::prelude::*;

verus! {

/// A structured value: the argument or result payload of a tool call.
#[derive(Debug)]
pub enum JsonValue {
    Null,
    Bool(bool),
    /// The literal text of a JSON number, e.g. `-12.5e3`.
    Number(String),
    Text(String),
    Array(Vec<JsonValue>),
    /// Members in document order; duplicate keys are allowed.
    Object(Vec<(String, JsonValue)>),
}

impl JsonValue {
    /// An empty object: the default `args` of a request.
    pub fn empty_object() -> (r: JsonValue)
        ensures
            r matches JsonValue::Object(m) && m@ == Seq::<(String, JsonValue)>::empty(),
    {
        JsonValue::Object(Vec::new())
    }

    /// The value of the first member named `key`, if the value is an object
    /// with such a member.
    pub open spec fn spec_get(self, key: Seq<char>) -> Option<JsonValue> {
        match self {
            JsonValue::Object(members) => spec_lookup(members@, key),
            _ => None,
        }
    }

    /// First-match lookup of `key` among the members of an object.
    #[verifier::loop_isolation(false)]
    pub fn get<'a>(&'a self, key: &str) -> (r: Option<&'a JsonValue>)
        ensures
            match r {
                Some(v) => self.spec_get(key@) == Some(*v),
                None => self.spec_get(key@) is None,
            },
    {
        match self {
            JsonValue::Object(members) => {
                let n = members.len();
                let mut i: usize = 0;
                assert(members@.skip(0) =~= members@);
                while i < n
                    invariant
                        n == members@.len(),
                        i <= n,
                        forall|j: int| 0 <= j < i ==> members@[j].0@ != key@,
                        spec_lookup(members@, key@) == spec_lookup(
                            members@.skip(i as int),
                            key@,
                        ),
                    decreases n - i,
                {
                    assert(members@.skip(i as int)[0] == members@[i as int]);
                    if str_eq(members[i].0.as_str(), key) {
                        assert(spec_lookup(members@.skip(i as int), key@) == Some(
                            members@[i as int].1,
                        ));
                        return Some(&members[i].1);
                    }
                    assert(members@.skip(i as int).skip(1) =~= members@.skip(i + 1));
                    i = i + 1;
                }
                assert(members@.skip(n as int) =~= Seq::<(String, JsonValue)>::empty());
                None
            },
            _ => None,
        }
    }

    /// Whether the value is a text string.
    pub open spec fn spec_is_text(self) -> bool {
        self is Text
    }

    /// The carried text, if the value is a text string.
    pub fn as_text<'a>(&'a self) -> (r: Option<&'a String>)
        ensures
            match r {
                Some(s) => self is Text && self->Text_0 == *s,
                None => !(self is Text),
            },
    {
        match self {
            JsonValue::Text(s) => Some(s),
            _ => None,
        }
    }
}

/// A deep copy of a value: the copy has the same model.
pub fn clone_value(v: &JsonValue) -> (r: JsonValue)
    ensures
        rep_of(r) == rep_of(*v),
    decreases *v,
{
    match v {
        JsonValue::Null => JsonValue::Null,
        JsonValue::Bool(b) => JsonValue::Bool(*b),
        JsonValue::Number(s) => JsonValue::Number(s.clone()),
        JsonValue::Text(s) => JsonValue::Text(s.clone()),
        JsonValue::Array(xs) => {
            let n = xs.len();
            let mut out: Vec<JsonValue> = Vec::new();
            let mut i: usize = 0;
            while i < n
                invariant
                    n == xs@.len(),
                    i == out@.len() <= n,
                    *v matches JsonValue::Array(xs2) && xs2@ == xs@,
                    forall|j: int|
                        0 <= j < i ==> rep_of(#[trigger] out@[j]) == rep_of(xs@[j]),
                decreases n - i,
            {
                proof {
                    assert(decreases_to!(*v => xs@[i as int]));
                }
                let c = clone_value(&xs[i]);
                out.push(c);
                i = i + 1;
            }
            proof {
                assert(rep_of(JsonValue::Array(out))->Array_0 =~= rep_of(*v)->Array_0);
            }
            JsonValue::Array(out)
        },
        JsonValue::Object(ms) => {
            let n = ms.len();
            let mut out: Vec<(String, JsonValue)> = Vec::new();
            let mut i: usize = 0;
            while i < n
                invariant
                    n == ms@.len(),
                    i == out@.len() <= n,
                    *v matches JsonValue::Object(ms2) && ms2@ == ms@,
                    forall|j: int|
                        0 <= j < i ==> rep_of(#[trigger] out@[j].1) == rep_of(ms@[j].1)
                            && out@[j].0@ == ms@[j].0@,
                decreases n - i,
            {
                proof {
                    assert(decreases_to!(*v => ms@[i as int].1));
                }
                let k = ms[i].0.clone();
                let c = clone_value(&ms[i].1);
                out.push((k, c));
                i = i + 1;
            }
            proof {
                assert(rep_of(JsonValue::Object(out))->Object_0 =~= rep_of(*v)->Object_0);
            }
            JsonValue::Object(out)
        },
    }
}

/// String-slice equality, stated over the views.
pub fn str_eq(a: &str, b: &str) -> (r: bool)
    ensures
        r == (a@ == b@),
{
    let oa: String = a.to_owned();
    let ob: String = b.to_owned();
    oa == ob
}

/// First-match lookup in a member list.
pub open spec fn spec_lookup(members: Seq<(String, JsonValue)>, key: Seq<char>) -> Option<
    JsonValue,
>
    decreases members.len(),
{
    if members.len() == 0 {
        None
    } else if members[0].0@ == key {
        Some(members[0].1)
    } else {
        spec_lookup(members.skip(1), key)
    }
}

/// First-match lookup in a model member list.
pub open spec fn rep_lookup(ms: Seq<(Seq<char>, JsonRep)>, key: Seq<char>) -> Option<JsonRep>
    decreases ms.len(),
{
    if ms.len() == 0 {
        None
    } else if ms[0].0 == key {
        Some(ms[0].1)
    } else {
        rep_lookup(ms.skip(1), key)
    }
}

/// Lookup on a member list agrees with lookup on its model.
pub proof fn lemma_lookup_rep(ms: Seq<(String, JsonValue)>, key: Seq<char>)
    ensures
        match spec_lookup(ms, key) {
            Option::Some(v) => rep_lookup(rep_members(ms), key) == Some(rep_of(v)),
            Option::None => rep_lookup(rep_members(ms), key) is None,
        },
    decreases ms.len(),
{
    if ms.len() == 0 {
    } else if ms[0].0@ == key {
        assert(rep_members(ms)[0] == (ms[0].0@, rep_of(ms[0].1)));
    } else {
        assert(rep_members(ms)[0] == (ms[0].0@, rep_of(ms[0].1)));
        lemma_lookup_rep(ms.skip(1), key);
        assert(rep_members(ms).skip(1) =~= rep_members(ms.skip(1)));
    }
}

/// A lookup in a well-formed member list yields a well-formed value.
pub proof fn lemma_rep_lookup_wf(ms: Seq<(Seq<char>, JsonRep)>, key: Seq<char>)
    requires
        forall|i: int| 0 <= i < ms.len() ==> wf_rep(#[trigger] ms[i].1),
    ensures
        rep_lookup(ms, key) matches Some(v) ==> wf_rep(v),
    decreases ms.len(),
{
    if ms.len() > 0 && ms[0].0 != key {
        assert(forall|i: int|
            0 <= i < ms.skip(1).len() ==> wf_rep(#[trigger] ms.skip(1)[i].1));
        lemma_rep_lookup_wf(ms.skip(1), key);
    }
}

/// The mathematical model of a `JsonValue`: the same tree over `Seq`.
pub enum JsonRep {
    Null,
    Bool(bool),
    Number(Seq<char>),
    Text(Seq<char>),
    Array(Seq<JsonRep>),
    Object(Seq<(Seq<char>, JsonRep)>),
}

/// The model of an executable value.
pub open spec fn rep_of(v: JsonValue) -> JsonRep
    decreases v,
{
    match v {
        JsonValue::Null => JsonRep::Null,
        JsonValue::Bool(b) => JsonRep::Bool(b),
        JsonValue::Number(s) => JsonRep::Number(s@),
        JsonValue::Text(s) => JsonRep::Text(s@),
        JsonValue::Array(xs) => JsonRep::Array(
            Seq::new(
                xs@.len(),
                |i: int|
                    if 0 <= i < xs@.len() {
                        rep_of(xs@[i])
                    } else {
                        JsonRep::Null
                    },
            ),
        ),
        JsonValue::Object(ms) => JsonRep::Object(
            Seq::new(
                ms@.len(),
                |i: int|
                    if 0 <= i < ms@.len() {
                        (ms@[i].0@, rep_of(ms@[i].1))
                    } else {
                        (Seq::<char>::empty(), JsonRep::Null)
                    },
            ),
        ),
    }
}

impl View for JsonValue {
    type V = JsonRep;

    open spec fn view(&self) -> JsonRep {
        rep_of(*self)
    }
}

/// The models of a sequence of values.
pub open spec fn rep_seq(q: Seq<JsonValue>) -> Seq<JsonRep> {
    Seq::new(
        q.len(),
        |i: int|
            if 0 <= i < q.len() {
                rep_of(q[i])
            } else {
                JsonRep::Null
            },
    )
}

/// The models of a member list.
pub open spec fn rep_members(q: Seq<(String, JsonValue)>) -> Seq<(Seq<char>, JsonRep)> {
    Seq::new(
        q.len(),
        |i: int|
            if 0 <= i < q.len() {
                (q[i].0@, rep_of(q[i].1))
            } else {
                (Seq::<char>::empty(), JsonRep::Null)
            },
    )
}

/// An array's model is the model of its elements.
pub broadcast proof fn lemma_rep_of_array(xs: Vec<JsonValue>)
    ensures
        #[trigger] rep_of(JsonValue::Array(xs)) == JsonRep::Array(rep_seq(xs@)),
{
    assert(rep_of(JsonValue::Array(xs))->Array_0 =~= rep_seq(xs@));
}

/// An object's model is the model of its members.
pub broadcast proof fn lemma_rep_of_object(ms: Vec<(String, JsonValue)>)
    ensures
        #[trigger] rep_of(JsonValue::Object(ms)) == JsonRep::Object(rep_members(ms@)),
{
    assert(rep_of(JsonValue::Object(ms))->Object_0 =~= rep_members(ms@));
}

/// Appending a value appends its model.
pub proof fn lemma_rep_seq_push(q: Seq<JsonValue>, x: JsonValue)
    ensures
        rep_seq(q.push(x)) == rep_seq(q).push(rep_of(x)),
{
    assert(rep_seq(q.push(x)) =~= rep_seq(q).push(rep_of(x)));
}

/// Appending a member appends its model.
pub proof fn lemma_rep_members_push(q: Seq<(String, JsonValue)>, m: (String, JsonValue))
    ensures
        rep_members(q.push(m)) == rep_members(q).push((m.0@, rep_of(m.1))),
{
    assert(rep_members(q.push(m)) =~= rep_members(q).push((m.0@, rep_of(m.1))));
}

/// How deeply arrays and objects nest in a value: scalars have depth zero.
pub open spec fn rep_depth(r: JsonRep) -> nat
    decreases r,
{
    match r {
        JsonRep::Array(xs) => 1 + seq_rep_depth(xs),
        JsonRep::Object(ms) => 1 + members_rep_depth(ms),
        _ => 0,
    }
}

/// The largest depth among a sequence of values.
pub open spec fn seq_rep_depth(xs: Seq<JsonRep>) -> nat
    decreases xs,
{
    if xs.len() == 0 {
        0
    } else {
        let d0 = rep_depth(xs[0]);
        let dr = seq_rep_depth(xs.skip(1));
        if d0 > dr {
            d0
        } else {
            dr
        }
    }
}

/// The largest depth among the values of an object's members.
pub open spec fn members_rep_depth(ms: Seq<(Seq<char>, JsonRep)>) -> nat
    decreases ms,
{
    if ms.len() == 0 {
        0
    } else {
        let d0 = rep_depth(ms[0].1);
        let dr = members_rep_depth(ms.skip(1));
        if d0 > dr {
            d0
        } else {
            dr
        }
    }
}

/// A well-formed value: every number holds the literal text of a JSON number.
pub open spec fn wf_rep(r: JsonRep) -> bool
    decreases r,
{
    match r {
        JsonRep::Number(t) => num_lit(t),
        JsonRep::Array(xs) => forall|i: int| 0 <= i < xs.len() ==> wf_rep(#[trigger] xs[i]),
        JsonRep::Object(ms) => forall|i: int| 0 <= i < ms.len() ==> wf_rep(#[trigger] ms[i].1),
        _ => true,
    }
}

/// A decimal digit.
pub open spec fn is_digit(c: char) -> bool {
    48 <= (c as u32) <= 57
}

/// The suffix left after the leading run of decimal digits.
pub open spec fn skip_digits(s: Seq<char>) -> Seq<char>
    decreases s.len(),
{
    if s.len() > 0 && is_digit(s[0]) {
        skip_digits(s.skip(1))
    } else {
        s
    }
}

/// The suffix left after the integer part of a number (`-?(0|[1-9][0-9]*)`),
/// or `None` if none starts the sequence.
pub open spec fn after_int_part(s: Seq<char>) -> Option<Seq<char>> {
    let t = if s.len() > 0 && s[0] == '-' {
        s.skip(1)
    } else {
        s
    };
    if t.len() > 0 && is_digit(t[0]) {
        if t[0] == '0' {
            Some(t.skip(1))
        } else {
            Some(skip_digits(t))
        }
    } else {
        None
    }
}

/// The suffix left after an optional fraction part (`(\.[0-9]+)?`).
pub open spec fn after_frac_part(s: Seq<char>) -> Option<Seq<char>> {
    if s.len() > 0 && s[0] == '.' {
        if s.len() > 1 && is_digit(s[1]) {
            Some(skip_digits(s.skip(1)))
        } else {
            None
        }
    } else {
        Some(s)
    }
}

/// The suffix left after an optional exponent part (`([eE][+-]?[0-9]+)?`).
pub open spec fn after_exp_part(s: Seq<char>) -> Option<Seq<char>> {
    if s.len() > 0 && (s[0] == 'e' || s[0] == 'E') {
        let t = if s.len() > 1 && (s[1] == '+' || s[1] == '-') {
            s.skip(2)
        } else {
            s.skip(1)
        };
        if t.len() > 0 && is_digit(t[0]) {
            Some(skip_digits(t))
        } else {
            None
        }
    } else {
        Some(s)
    }
}

/// The suffix left after the number token that starts the sequence, if one does.
pub open spec fn after_number(s: Seq<char>) -> Option<Seq<char>> {
    match after_int_part(s) {
        Option::None => None,
        Option::Some(a) => match after_frac_part(a) {
            Option::None => None,
            Option::Some(b) => after_exp_part(b),
        },
    }
}

/// `t` is exactly one JSON number token.
pub open spec fn num_lit(t: Seq<char>) -> bool {
    after_number(t) == Some(Seq::<char>::empty())
}

} // verus!
