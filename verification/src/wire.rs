//! The wire form of requests and results.
//!
//! A request crosses the RPC boundary as the JSON object
//! `{"name": <string>, "args": <value>}`; a result as
//! `{"success": <bool>, "data": <value>, "error": <string or null>}`.
//! Encoding and decoding are exact inverses: see `lemma_request_roundtrip`
//! and `lemma_result_roundtrip`.

use vstd::prelude::*;
use vstd::string::StrSliceExecFns;
use vstd::utf8::{decode_utf8, encode_utf8, valid_utf8};

use crate::interface::{ToolParameters, ToolResult};
use crate::json::{
    clone_value, rep_depth, rep_lookup, rep_members, rep_of, wf_rep, JsonRep, JsonValue,
};
use crate::parse::{p_doc, parse_json, MAX_DEPTH};
use crate::roundtrip::lemma_doc_roundtrip;
use crate::ser::{ser_rep, to_json_text};

verus! {

/// What can go wrong at the RPC boundary.
#[derive(Debug)]
pub enum RpcError {
    /// The transport failed: connecting, or carrying a call.
    Transport(String),
    /// A wire payload could not be interpreted.
    Decode(String),
    /// No registered tool carries the requested name.
    NotFound,
    /// The action tag is not supported.
    InvalidArgument(String),
    /// A tool failure escaped the tool's own catch-and-convert duty.
    Internal(String),
    /// A call that owed one reply record produced none.
    NoResult,
}

/// The text a boundary error reads as.
pub open spec fn rpc_error_msg(e: RpcError) -> Seq<char> {
    match e {
        RpcError::Transport(m) => "transport error: "@ + m@,
        RpcError::Decode(m) => "decode error: "@ + m@,
        RpcError::NotFound => "tool not found"@,
        RpcError::InvalidArgument(m) => m@,
        RpcError::Internal(m) => "internal error: "@ + m@,
        RpcError::NoResult => "no result received from tool execution"@,
    }
}

impl RpcError {
    /// Renders the error as text.
    pub fn message(&self) -> (r: String)
        ensures
            r@ == rpc_error_msg(*self),
    {
        match self {
            RpcError::Transport(m) => {
                let mut out = String::new();
                out.append("transport error: ");
                out.append(m.as_str());
                out
            },
            RpcError::Decode(m) => {
                let mut out = String::new();
                out.append("decode error: ");
                out.append(m.as_str());
                out
            },
            RpcError::NotFound => {
                let s: &str = "tool not found";
                s.to_owned()
            },
            RpcError::InvalidArgument(m) => m.clone(),
            RpcError::Internal(m) => {
                let mut out = String::new();
                out.append("internal error: ");
                out.append(m.as_str());
                out
            },
            RpcError::NoResult => {
                let s: &str = "no result received from tool execution";
                s.to_owned()
            },
        }
    }
}

/// The model of a request's wire object.
pub open spec fn request_rep(name: Seq<char>, args: JsonRep) -> JsonRep {
    JsonRep::Object(seq![("name"@, JsonRep::Text(name)), ("args"@, args)])
}

/// The model of a result's wire object.
pub open spec fn result_rep(success: bool, data: JsonRep, error: Option<Seq<char>>) -> JsonRep {
    JsonRep::Object(
        seq![
            ("success"@, JsonRep::Bool(success)),
            ("data"@, data),
            (
                "error"@,
                match error {
                    Option::Some(e) => JsonRep::Text(e),
                    Option::None => JsonRep::Null,
                },
            ),
        ],
    )
}

/// Encodes a request as its wire text.
pub fn encode_request(params: &ToolParameters) -> (r: String)
    ensures
        r@ == ser_rep(request_rep(params.name@, rep_of(params.args))),
{
    let mut ms: Vec<(String, JsonValue)> = Vec::new();
    let nk: &str = "name";
    ms.push((nk.to_owned(), JsonValue::Text(params.name.clone())));
    let ak: &str = "args";
    ms.push((ak.to_owned(), clone_value(&params.args)));
    let obj = JsonValue::Object(ms);
    proof {
        crate::json::lemma_rep_of_object(obj->Object_0);
        assert(JsonValue::Object(obj->Object_0) == obj);
        assert(rep_members(obj->Object_0@) =~= request_rep(
            params.name@,
            rep_of(params.args),
        )->Object_0);
    }
    to_json_text(&obj)
}

/// What a wire text decodes to as a request, if anything: a JSON object
/// with a text `name` member and an `args` member.
pub open spec fn decode_request_rep(s: Seq<char>) -> Option<(Seq<char>, JsonRep)> {
    match p_doc(s) {
        Option::Some(r) => if r matches JsonRep::Object(ms) && rep_lookup(
            ms,
            "name"@,
        ) matches Some(nv) && nv is Text && rep_lookup(ms, "args"@) is Some {
            Some(
                (
                    rep_lookup(r->Object_0, "name"@)->Some_0->Text_0,
                    rep_lookup(r->Object_0, "args"@)->Some_0,
                ),
            )
        } else {
            None
        },
        Option::None => None,
    }
}

/// Decodes a request from its wire text: `Ok` exactly when the text is a
/// well-formed request object.
pub fn decode_request(text: &str) -> (r: Result<ToolParameters, RpcError>)
    ensures
        match r {
            Ok(p) => decode_request_rep(text@) == Some((p.name@, rep_of(p.args))) && wf_rep(
                rep_of(p.args),
            ),
            Err(e) => decode_request_rep(text@) is None && e is Decode,
        },
{
    match parse_json(text) {
        Some(x) => {
            proof {
                if x is Object {
                    assert(JsonValue::Object(x->Object_0) == x);
                    crate::json::lemma_rep_of_object(x->Object_0);
                    crate::json::lemma_lookup_rep(x->Object_0@, "name"@);
                    crate::json::lemma_lookup_rep(x->Object_0@, "args"@);
                    crate::json::lemma_rep_lookup_wf(rep_of(x)->Object_0, "args"@);
                }
            }
            let name_opt: Option<String> = match x.get("name") {
                Some(nv) => match nv.as_text() {
                    Some(s) => Some(s.clone()),
                    None => None,
                },
                None => None,
            };
            match name_opt {
                Some(name) => match x.get("args") {
                    Some(av) => {
                        let args = clone_value(av);
                        Ok(ToolParameters { name, args })
                    },
                    None => {
                        let m: &str = "request carries no args member";
                        Err(RpcError::Decode(m.to_owned()))
                    },
                },
                None => {
                    let m: &str = "request carries no text name member";
                    Err(RpcError::Decode(m.to_owned()))
                },
            }
        },
        None => {
            let m: &str = "request payload is not a JSON document";
            Err(RpcError::Decode(m.to_owned()))
        },
    }
}

/// Encodes a result as its wire text.
pub fn encode_result(res: &ToolResult) -> (r: String)
    ensures
        r@ == ser_rep(
            result_rep(
                res.success,
                rep_of(res.data),
                match res.error {
                    Some(e) => Some(e@),
                    None => None,
                },
            ),
        ),
{
    let mut ms: Vec<(String, JsonValue)> = Vec::new();
    let sk: &str = "success";
    ms.push((sk.to_owned(), JsonValue::Bool(res.success)));
    let dk: &str = "data";
    ms.push((dk.to_owned(), clone_value(&res.data)));
    let ek: &str = "error";
    let ev = match &res.error {
        Some(e) => JsonValue::Text(e.clone()),
        None => JsonValue::Null,
    };
    ms.push((ek.to_owned(), ev));
    let obj = JsonValue::Object(ms);
    proof {
        crate::json::lemma_rep_of_object(obj->Object_0);
        assert(JsonValue::Object(obj->Object_0) == obj);
        assert(rep_members(obj->Object_0@) =~= result_rep(
            res.success,
            rep_of(res.data),
            match res.error {
                Some(e) => Some(e@),
                None => None,
            },
        )->Object_0);
    }
    to_json_text(&obj)
}

/// What a wire text decodes to as a result, if anything: a JSON object
/// whose `success` member is a boolean, whose `data` member is present, and
/// whose `error` member, if present, is text or null.
pub open spec fn decode_result_rep(s: Seq<char>) -> Option<(bool, JsonRep, Option<Seq<char>>)> {
    match p_doc(s) {
        Option::Some(r) => if r matches JsonRep::Object(ms) && rep_lookup(
            ms,
            "success"@,
        ) matches Some(sv) && sv is Bool && rep_lookup(ms, "data"@) is Some {
            let ms0 = r->Object_0;
            match rep_lookup(ms0, "error"@) {
                Option::Some(ev) => if ev is Text {
                    Some(
                        (
                            rep_lookup(ms0, "success"@)->Some_0->Bool_0,
                            rep_lookup(ms0, "data"@)->Some_0,
                            Some(ev->Text_0),
                        ),
                    )
                } else if ev is Null {
                    Some(
                        (
                            rep_lookup(ms0, "success"@)->Some_0->Bool_0,
                            rep_lookup(ms0, "data"@)->Some_0,
                            None,
                        ),
                    )
                } else {
                    None
                },
                Option::None => Some(
                    (
                        rep_lookup(ms0, "success"@)->Some_0->Bool_0,
                        rep_lookup(ms0, "data"@)->Some_0,
                        None,
                    ),
                ),
            }
        } else {
            None
        },
        Option::None => None,
    }
}

/// Decodes a result from its wire text: `Ok` exactly when the text is a
/// well-formed result object.
pub fn decode_result(text: &str) -> (r: Result<ToolResult, RpcError>)
    ensures
        match r {
            Ok(res) => decode_result_rep(text@) == Some(
                (
                    res.success,
                    rep_of(res.data),
                    match res.error {
                        Some(e) => Some(e@),
                        None => None,
                    },
                ),
            ) && wf_rep(rep_of(res.data)),
            Err(e) => decode_result_rep(text@) is None && e is Decode,
        },
{
    match parse_json(text) {
        Some(x) => {
            proof {
                if x is Object {
                    assert(JsonValue::Object(x->Object_0) == x);
                    crate::json::lemma_rep_of_object(x->Object_0);
                    crate::json::lemma_lookup_rep(x->Object_0@, "success"@);
                    crate::json::lemma_lookup_rep(x->Object_0@, "data"@);
                    crate::json::lemma_lookup_rep(x->Object_0@, "error"@);
                    crate::json::lemma_rep_lookup_wf(rep_of(x)->Object_0, "data"@);
                }
            }
            let success_opt: Option<bool> = match x.get("success") {
                Some(sv) => match sv {
                    JsonValue::Bool(b) => Some(*b),
                    _ => None,
                },
                None => None,
            };
            match success_opt {
                Some(success) => match x.get("data") {
                    Some(dv) => {
                        let data = clone_value(dv);
                        match x.get("error") {
                            Some(ev) => match ev {
                                JsonValue::Text(e) => Ok(
                                    ToolResult { success, data, error: Some(e.clone()) },
                                ),
                                JsonValue::Null => Ok(ToolResult { success, data, error: None }),
                                _ => {
                                    let m: &str = "result error member is neither text nor null";
                                    Err(RpcError::Decode(m.to_owned()))
                                },
                            },
                            None => Ok(ToolResult { success, data, error: None }),
                        }
                    },
                    None => {
                        let m: &str = "result carries no data member";
                        Err(RpcError::Decode(m.to_owned()))
                    },
                },
                None => {
                    let m: &str = "result carries no boolean success member";
                    Err(RpcError::Decode(m.to_owned()))
                },
            }
        },
        None => {
            let m: &str = "result payload is not a JSON document";
            Err(RpcError::Decode(m.to_owned()))
        },
    }
}

/// Round trip: a request encoded to wire text decodes back to the same
/// name and the same arguments, exactly.
pub proof fn lemma_request_roundtrip(name: Seq<char>, args: JsonRep)
    requires
        wf_rep(args),
        rep_depth(args) + 1 <= MAX_DEPTH as nat,
    ensures
        decode_request_rep(ser_rep(request_rep(name, args))) == Some((name, args)),
{
    let r = request_rep(name, args);
    let ms = r->Object_0;
    assert(wf_rep(r)) by {
        assert(forall|i: int| 0 <= i < ms.len() ==> wf_rep(#[trigger] ms[i].1));
    }
    assert(rep_depth(r) <= MAX_DEPTH as nat) by {
        let tail = seq![("args"@, args)];
        assert(ms.skip(1) =~= tail);
        assert(tail.skip(1) =~= Seq::<(Seq<char>, JsonRep)>::empty());
        assert(crate::json::members_rep_depth(Seq::<(Seq<char>, JsonRep)>::empty()) == 0);
        assert(crate::json::members_rep_depth(tail) == rep_depth(args));
        assert(rep_depth(JsonRep::Text(name)) == 0);
        assert(crate::json::members_rep_depth(ms) == rep_depth(args));
    }
    lemma_doc_roundtrip(r);
    broadcast use vstd::string::group_string_axioms;

    reveal_strlit("name");
    reveal_strlit("args");
    assert("name"@[0] == 'n' && "args"@[0] == 'a');
    assert("name"@ != "args"@);
    let tail = seq![("args"@, args)];
    assert(ms.skip(1) =~= tail);
    assert(rep_lookup(ms, "name"@) == Some(JsonRep::Text(name)));
    assert(rep_lookup(tail, "args"@) == Some(args));
    assert(rep_lookup(ms, "args"@) == Some(args));
}

/// Round trip: a result encoded to wire text decodes back to the same
/// success flag, data and error, exactly.
pub proof fn lemma_result_roundtrip(success: bool, data: JsonRep, error: Option<Seq<char>>)
    requires
        wf_rep(data),
        rep_depth(data) + 1 <= MAX_DEPTH as nat,
    ensures
        decode_result_rep(ser_rep(result_rep(success, data, error))) == Some(
            (success, data, error),
        ),
{
    let r = result_rep(success, data, error);
    let ms = r->Object_0;
    let ev = match error {
        Option::Some(e) => JsonRep::Text(e),
        Option::None => JsonRep::Null,
    };
    assert(wf_rep(r)) by {
        assert(forall|i: int| 0 <= i < ms.len() ==> wf_rep(#[trigger] ms[i].1));
    }
    assert(rep_depth(r) <= MAX_DEPTH as nat) by {
        let t2 = seq![("error"@, ev)];
        let t1 = seq![("data"@, data), ("error"@, ev)];
        assert(ms.skip(1) =~= t1);
        assert(t1.skip(1) =~= t2);
        assert(t2.skip(1) =~= Seq::<(Seq<char>, JsonRep)>::empty());
        assert(crate::json::members_rep_depth(Seq::<(Seq<char>, JsonRep)>::empty()) == 0);
        assert(rep_depth(ev) == 0);
        assert(crate::json::members_rep_depth(t2) == 0);
        assert(crate::json::members_rep_depth(t1) <= rep_depth(data));
        assert(rep_depth(JsonRep::Bool(success)) == 0);
        assert(crate::json::members_rep_depth(ms) <= rep_depth(data));
    }
    lemma_doc_roundtrip(r);
    broadcast use vstd::string::group_string_axioms;

    reveal_strlit("success");
    reveal_strlit("data");
    reveal_strlit("error");
    assert("success"@.len() == 7 && "data"@.len() == 4 && "error"@.len() == 5);
    assert("success"@ != "data"@ && "success"@ != "error"@ && "data"@ != "error"@);
    let t2 = seq![("error"@, ev)];
    let t1 = seq![("data"@, data), ("error"@, ev)];
    assert(ms.skip(1) =~= t1);
    assert(t1.skip(1) =~= t2);
    assert(t2.skip(1) =~= Seq::<(Seq<char>, JsonRep)>::empty());
    assert(rep_lookup(Seq::<(Seq<char>, JsonRep)>::empty(), "data"@) is None);
    assert(rep_lookup(ms, "success"@) == Some(JsonRep::Bool(success)));
    assert(rep_lookup(t2, "data"@) is None);
    assert(rep_lookup(t1, "data"@) == Some(data));
    assert(rep_lookup(ms, "data"@) == Some(data));
    assert(rep_lookup(t2, "error"@) == Some(ev));
    assert(rep_lookup(t1, "error"@) == Some(ev));
    assert(rep_lookup(ms, "error"@) == Some(ev));
}

/// Relies on String::from_utf8: `Some` exactly for valid UTF-8, and then
/// the string's characters are the decoding of the bytes.
#[verifier::external_body]
pub fn bytes_to_text(v: &[u8]) -> (r: Option<String>)
    ensures
        r is Some <==> valid_utf8(v@),
        r matches Some(s) ==> s@ == decode_utf8(v@),
{
    String::from_utf8(v.to_vec()).ok()
}

/// The UTF-8 bytes of a text.
pub fn text_to_bytes(s: &str) -> (r: Vec<u8>)
    ensures
        r@ == encode_utf8(s@),
{
    s.as_bytes_vec()
}

} // verus!
